//! The tasks side by side.
//!
//! Four tasks work on the board and share one permit, and a fifth shows the board. They take turns:
//! a turn is one step of one task. Whatever the turns are, a permit is given only while no task
//! holds it.

use crate::board::Board;
use crate::controller::frame_request;
use crate::display::lists;
use crate::dynamodb::{dynamodb_moved, DynamoDbActionView, DynamoDbSignalView, DynamoDbStateView};
use crate::ec2::{ec2_moved, identified, Ec2ActionView, Ec2Signal, Ec2State};
use crate::frame::{board_cells, frame};
use crate::laws::{in_order, law_growth_keeps, law_touch_keeps};
use crate::passes::{law_dynamodb_grows, law_ec2_grows, law_s3_grows};
use crate::resource::ResourceView;
use crate::s3::{s3_moved, S3ActionView, S3SignalView, S3StateView};
use crate::show::{show_moved, ShowActionView, ShowSignal, ShowStateView};
use crate::touch::{touch_step, TouchActionView, TouchSignalView, TouchStateView};
use vstd::prelude::*;

verus! {

/// At most one of the four tasks holds the permit to work.
pub open spec fn one_permit(
    touch: TouchStateView,
    ec2: Ec2State,
    s3: S3StateView,
    dynamodb: DynamoDbStateView,
) -> bool {
    &&& !(touch.holds_permit() && ec2.holds_permit())
    &&& !(touch.holds_permit() && s3.holds_permit())
    &&& !(touch.holds_permit() && dynamodb.holds_permit())
    &&& !(ec2.holds_permit() && s3.holds_permit())
    &&& !(ec2.holds_permit() && dynamodb.holds_permit())
    &&& !(s3.holds_permit() && dynamodb.holds_permit())
}

/// Where all tasks stand, and the board.
pub struct Scene {
    pub touch: TouchStateView,
    pub ec2: Ec2State,
    pub s3: S3StateView,
    pub dynamodb: DynamoDbStateView,
    pub show: ShowStateView,
    pub board: Board,
}

/// A step of one task: the signal that it takes, what chance decides, and what the task then asks
/// for.
#[allow(inconsistent_fields)]
pub enum Turn {
    Touch { signal: TouchSignalView, action: TouchActionView },
    Ec2 { signal: Ec2Signal, picks: Seq<int>, action: Ec2ActionView },
    S3 { signal: S3SignalView, region: Seq<char>, pick: int, action: S3ActionView },
    DynamoDb { signal: DynamoDbSignalView, pick: int, action: DynamoDbActionView },
    Show { signal: ShowSignal, api_url: Seq<char>, panel_count: u16, action: ShowActionView },
}

impl Scene {
    /// Before the first tick and the first message.
    pub open spec fn at_start(self) -> bool {
        &&& self.touch is Streaming
        &&& self.ec2 is Idle
        &&& self.s3 is Idle
        &&& self.dynamodb is Idle
        &&& self.show is Idle
    }

    /// At most one task holds the permit.
    pub open spec fn one_permit(self) -> bool {
        one_permit(self.touch, self.ec2, self.s3, self.dynamodb)
    }

    /// One of the tasks that look for resources holds the permit.
    pub open spec fn monitor_holds_permit(self) -> bool {
        self.ec2.holds_permit() || self.s3.holds_permit() || self.dynamodb.holds_permit()
    }

    /// No task holds the permit.
    pub open spec fn permit_free(self) -> bool {
        !self.touch.holds_permit() && !self.monitor_holds_permit()
    }

    /// The task whose turn it is holds the permit.
    pub open spec fn holds_permit(self, turn: Turn) -> bool {
        match turn {
            Turn::Touch { .. } => self.touch.holds_permit(),
            Turn::Ec2 { .. } => self.ec2.holds_permit(),
            Turn::S3 { .. } => self.s3.holds_permit(),
            Turn::DynamoDb { .. } => self.dynamodb.holds_permit(),
            Turn::Show { .. } => false,
        }
    }
}

impl Turn {
    /// The task is given the permit.
    pub open spec fn takes_permit(self) -> bool {
        match self {
            Turn::Touch { signal, .. } => signal is Admitted,
            Turn::Ec2 { signal, .. } => signal is Permit,
            Turn::S3 { signal, .. } => signal is Permit,
            Turn::DynamoDb { signal, .. } => signal is Permit,
            Turn::Show { .. } => false,
        }
    }

    /// The task asks a service for something: a listing, a location, a description or a
    /// termination.
    pub open spec fn asks_service(self) -> bool {
        match self {
            Turn::Touch { action, .. } => action is Terminate,
            Turn::Ec2 { action, .. } => action is DescribeInstances,
            Turn::S3 { action, .. } => action is ListBuckets || action is GetBucketLocation,
            Turn::DynamoDb { action, .. } => action is ListTables || action is DescribeTable,
            Turn::Show { .. } => false,
        }
    }

    /// The task asks for the permit.
    pub open spec fn awaits_permit(self) -> bool {
        match self {
            Turn::Touch { action, .. } => action is AcquirePermit,
            Turn::Ec2 { action, .. } => action is AcquirePermit,
            Turn::S3 { action, .. } => action is AcquirePermit,
            Turn::DynamoDb { action, .. } => action is AcquirePermit,
            Turn::Show { .. } => false,
        }
    }

    /// It is the turn of one of the tasks that look for resources.
    pub open spec fn by_monitor(self) -> bool {
        self is Ec2 || self is S3 || self is DynamoDb
    }
}

/// The turn leads from one scene to the next: the task whose turn it is makes a step that its state
/// and the board allow, the others stay where they are, and a permit is given only if it is free.
pub open spec fn turned(before: Scene, turn: Turn, after: Scene) -> bool {
    &&& turn.takes_permit() ==> before.permit_free()
    &&& !(turn is Touch) ==> after.touch == before.touch
    &&& !(turn is Ec2) ==> after.ec2 == before.ec2
    &&& !(turn is S3) ==> after.s3 == before.s3
    &&& !(turn is DynamoDb) ==> after.dynamodb == before.dynamodb
    &&& !(turn is Show) ==> after.show == before.show
    &&& match turn {
        Turn::Touch { signal, action } => {
            &&& before.touch.expects(signal)
            &&& before.touch.touch_known(before.board.display)
            &&& (after.touch, action, after.board) == touch_step(
                before.touch,
                signal,
                before.board,
            )
        },
        Turn::Ec2 { signal, picks, action } => {
            &&& before.ec2.expects(signal)
            &&& signal matches Ec2Signal::Instances(listing) ==> identified(listing)
            &&& ec2_moved(signal, before.board, picks, after.ec2, action, after.board)
        },
        Turn::S3 { signal, region, pick, action } => {
            &&& before.s3.expects(signal)
            &&& before.s3.name_known()
            &&& before.s3.location_known(signal)
            &&& s3_moved(
                before.s3,
                signal,
                region,
                before.board,
                pick,
                after.s3,
                action,
                after.board,
            )
        },
        Turn::DynamoDb { signal, pick, action } => {
            &&& before.dynamodb.expects(signal)
            &&& before.dynamodb.status_known(signal)
            &&& dynamodb_moved(
                before.dynamodb,
                signal,
                before.board,
                pick,
                after.dynamodb,
                action,
                after.board,
            )
        },
        Turn::Show { signal, api_url, panel_count, action } => {
            &&& before.show.expects(signal)
            &&& show_moved(
                before.show,
                api_url,
                panel_count,
                before.board,
                after.show,
                action,
            )
            &&& after.board == before.board
        },
    }
}

/// A run: every turn leads from the scene before it to the scene after it.
pub open spec fn runs(scenes: Seq<Scene>, turns: Seq<Turn>) -> bool {
    &&& scenes.len() == turns.len() + 1
    &&& forall|k: int| 0 <= k < turns.len() ==> turned(scenes[k], #[trigger] turns[k], scenes[k + 1])
}

/// Every turn of every task keeps the permit with at most one task.
pub proof fn law_one_permit(before: Scene, turn: Turn, after: Scene)
    requires
        before.one_permit(),
        turned(before, turn, after),
    ensures
        after.one_permit(),
{
}

/// Only the task that holds the permit works: where a turn changes the board, its task holds the
/// permit and no other does, and where a turn asks a service for something, its task holds the
/// permit from then on and no other does.
pub proof fn law_permit_works(before: Scene, turn: Turn, after: Scene)
    requires
        before.one_permit(),
        turned(before, turn, after),
    ensures
        after.board != before.board ==> before.holds_permit(turn),
        turn.asks_service() ==> after.holds_permit(turn),
        turn.takes_permit() ==> after.holds_permit(turn),
        turn.awaits_permit() ==> !before.holds_permit(turn) && !after.holds_permit(turn),
        after.one_permit(),
{
}

/// While the touch task holds the permit, and so while it terminates a resource or pauses after
/// that, a task that looks for resources can do nothing but ask for the permit: it asks its service
/// for nothing, and it leaves the board and the touch task as they are.
pub proof fn law_touch_alone(before: Scene, turn: Turn, after: Scene)
    requires
        before.one_permit(),
        before.touch.holds_permit(),
        turn.by_monitor(),
        turned(before, turn, after),
    ensures
        turn.awaits_permit(),
        !turn.asks_service(),
        after.board == before.board,
        after.touch == before.touch,
        !after.monitor_holds_permit(),
{
}

/// While a task that looks for resources holds the permit, the touch task can do nothing but ask for
/// the permit: no touch is handled, nothing is terminated, and no panel is freed. The same holds of
/// the other tasks that look for resources.
pub proof fn law_monitor_alone(before: Scene, turn: Turn, after: Scene)
    requires
        before.one_permit(),
        before.monitor_holds_permit(),
        !(turn is Show),
        !before.holds_permit(turn),
        turned(before, turn, after),
    ensures
        turn.awaits_permit(),
        !turn.asks_service(),
        after.board == before.board,
        !after.touch.holds_permit(),
{
}

/// The task that shows the board may have its turn at any time: it needs no permit, and leaves the
/// board and all other tasks as they are.
pub proof fn law_show_harmless(before: Scene, turn: Turn, after: Scene)
    requires
        turn is Show,
        turned(before, turn, after),
    ensures
        !turn.takes_permit(),
        !turn.awaits_permit(),
        after.board == before.board,
        after.touch == before.touch,
        after.ec2 == before.ec2,
        after.s3 == before.s3,
        after.dynamodb == before.dynamodb,
{
}

/// In every run that begins with the permit at one task or none, at most one task ever holds it.
pub proof fn law_run_one_permit(scenes: Seq<Scene>, turns: Seq<Turn>, at: int)
    requires
        runs(scenes, turns),
        scenes[0].one_permit(),
        0 <= at <= turns.len(),
    ensures
        scenes[at].one_permit(),
    decreases at,
{
    if at > 0 {
        law_run_one_permit(scenes, turns, at - 1);
        assert(turned(scenes[at - 1], turns[at - 1], scenes[at]));
        law_one_permit(scenes[at - 1], turns[at - 1], scenes[at]);
    }
}

/// In every run, from the lookup of a touched panel until the panel is freed, no other task asks a
/// service for anything, and the board stays as it is.
pub proof fn law_run_touch_alone(scenes: Seq<Scene>, turns: Seq<Turn>, from: int, to: int)
    requires
        runs(scenes, turns),
        scenes[0].one_permit(),
        0 <= from <= to <= turns.len(),
        forall|k: int|
            from <= k <= to ==> (#[trigger] scenes[k]).touch is Terminating
                || scenes[k].touch is Pausing,
    ensures
        scenes[to].board == scenes[from].board,
        forall|k: int|
            from <= k < to ==> !(#[trigger] turns[k]).asks_service() && (turns[k].by_monitor()
                ==> turns[k].awaits_permit()),
    decreases to - from,
{
    if from < to {
        law_run_touch_alone(scenes, turns, from, to - 1);
        let before = scenes[to - 1];
        let turn = turns[to - 1];
        let after = scenes[to];
        law_run_one_permit(scenes, turns, to - 1);
        assert(turned(before, turn, after));
        assert(before.touch.holds_permit());
        if turn.by_monitor() {
            law_touch_alone(before, turn, after);
        }
    }
}

/// In every run, while a task that looks for resources holds the permit, the touch task does nothing
/// but ask for the permit.
pub proof fn law_run_monitor_alone(scenes: Seq<Scene>, turns: Seq<Turn>, at: int)
    requires
        runs(scenes, turns),
        scenes[0].one_permit(),
        0 <= at < turns.len(),
        scenes[at].monitor_holds_permit(),
        turns[at] is Touch,
    ensures
        turns[at].awaits_permit(),
        scenes[at + 1].board == scenes[at].board,
        !scenes[at + 1].touch.holds_permit(),
{
    law_run_one_permit(scenes, turns, at);
    assert(turned(scenes[at], turns[at], scenes[at + 1]));
    law_monitor_alone(scenes[at], turns[at], scenes[at + 1]);
}

/// In every run that begins in order, all stays in order: no panel is lost or held twice, no
/// resource is shown twice, and the panel whose resource is being terminated stays lit.
pub proof fn law_run_in_order(scenes: Seq<Scene>, turns: Seq<Turn>, at: int)
    requires
        runs(scenes, turns),
        in_order(scenes[0].board, scenes[0].touch),
        0 <= at <= turns.len(),
    ensures
        in_order(scenes[at].board, scenes[at].touch),
        scenes[at].board.panels() == scenes[0].board.panels(),
    decreases at,
{
    if at > 0 {
        law_run_in_order(scenes, turns, at - 1);
        let before = scenes[at - 1];
        let after = scenes[at];
        assert(turned(before, turns[at - 1], after));
        match turns[at - 1] {
            Turn::Touch { signal, .. } => {
                law_touch_keeps(before.touch, signal, before.board);
            },
            Turn::Ec2 { signal, picks, action } => {
                law_ec2_grows(signal, before.board, picks, after.ec2, action, after.board);
                law_growth_keeps(before.board, after.board, before.touch);
            },
            Turn::S3 { signal, region, pick, action } => {
                law_s3_grows(
                    before.s3,
                    signal,
                    region,
                    before.board,
                    pick,
                    after.s3,
                    action,
                    after.board,
                );
                law_growth_keeps(before.board, after.board, before.touch);
            },
            Turn::DynamoDb { signal, pick, action } => {
                law_dynamodb_grows(
                    before.dynamodb,
                    signal,
                    before.board,
                    pick,
                    after.dynamodb,
                    action,
                    after.board,
                );
                law_growth_keeps(before.board, after.board, before.touch);
            },
            Turn::Show { .. } => {},
        }
    }
}

/// The panels whose touches the event stream reports in the first `end` turns.
pub open spec fn received(turns: Seq<Turn>, end: int) -> Seq<u16>
    decreases end,
{
    if end <= 0 {
        Seq::empty()
    } else {
        received(turns, end - 1) + match turns[end - 1] {
            Turn::Touch { signal: TouchSignalView::Admitted(panels), .. } => panels,
            _ => Seq::empty(),
        }
    }
}

/// The panel whose touch is about to be handled or is being handled.
pub open spec fn touch_up(touch: TouchStateView) -> u16 {
    match touch {
        TouchStateView::Ready { panels, next } => panels[next],
        TouchStateView::Terminating { panels, next } => panels[next],
        TouchStateView::Pausing { panels, next } => panels[next],
        _ => arbitrary(),
    }
}

/// The termination that a turn asks for, if it does: the touched panel and the resource.
pub open spec fn termination(before: Scene, turn: Turn) -> Seq<(u16, ResourceView)> {
    match turn {
        Turn::Touch { action: TouchActionView::Terminate(resource), .. } => {
            seq![(touch_up(before.touch), resource)]
        },
        _ => Seq::empty(),
    }
}

/// The terminations that the first `end` turns ask for, in their order.
pub open spec fn terminations(scenes: Seq<Scene>, turns: Seq<Turn>, end: int) -> Seq<
    (u16, ResourceView),
>
    decreases end,
{
    if end <= 0 {
        Seq::empty()
    } else {
        terminations(scenes, turns, end - 1) + termination(scenes[end - 1], turns[end - 1])
    }
}

/// The panels whose touches were reported and whose resources are not asked to be terminated yet.
pub open spec fn pending(touch: TouchStateView) -> Seq<u16> {
    match touch {
        TouchStateView::Ready { panels, next } => panels.skip(next),
        TouchStateView::Terminating { panels, next } => panels.skip(next + 1),
        TouchStateView::Pausing { panels, next } => panels.skip(next + 1),
        _ => Seq::empty(),
    }
}

/// In every run from the start, the terminations that were asked for belong to the touches that
/// were reported, one to each, in the same order, without a gap: the others are still pending.
pub proof fn law_run_terminations(scenes: Seq<Scene>, turns: Seq<Turn>, end: int)
    requires
        runs(scenes, turns),
        scenes[0].touch is Streaming,
        0 <= end <= turns.len(),
    ensures
        terminations(scenes, turns, end).map_values(|asked: (u16, ResourceView)| asked.0) + pending(
            scenes[end].touch,
        ) == received(turns, end),
        terminations(scenes, turns, end).len() <= received(turns, end).len(),
        scenes[end].touch.wf(),
    decreases end,
{
    let panel = |asked: (u16, ResourceView)| asked.0;
    if end == 0 {
        assert(terminations(scenes, turns, 0).map_values(panel) + pending(scenes[0].touch)
            =~= received(turns, 0));
    } else {
        law_run_terminations(scenes, turns, end - 1);
        let before = scenes[end - 1];
        let turn = turns[end - 1];
        let after = scenes[end];
        assert(turned(before, turn, after));
        let asked = terminations(scenes, turns, end - 1);
        let more = termination(before, turn);
        assert((asked + more).map_values(panel) =~= asked.map_values(panel) + more.map_values(
            panel,
        ));
        let report = match turn {
            Turn::Touch { signal: TouchSignalView::Admitted(panels), .. } => panels,
            _ => Seq::empty(),
        };
        assert(more.map_values(panel) + pending(after.touch) =~= pending(before.touch) + report);
        assert((asked + more).map_values(panel) + pending(after.touch) =~= received(turns, end));
    }
}

/// In every run from the start, a termination names exactly the resource that the display holds, at
/// that moment, for the touched panel: the panel of the first touch whose resource was not asked to
/// be terminated before. So nothing is terminated whose panel was not touched.
pub proof fn law_run_terminates_touched(scenes: Seq<Scene>, turns: Seq<Turn>, at: int)
    requires
        runs(scenes, turns),
        scenes[0].touch is Streaming,
        0 <= at < turns.len(),
        turns[at] is Touch,
        turns[at]->Touch_action is Terminate,
    ensures
        ({
            let panel = received(turns, at)[terminations(scenes, turns, at).len() as int];
            &&& terminations(scenes, turns, at).len() < received(turns, at).len()
            &&& scenes[at].board.display.contains_key(panel)
            &&& turns[at]->Touch_action == TouchActionView::Terminate(
                scenes[at].board.display[panel],
            )
            &&& termination(scenes[at], turns[at]) == seq![
                (panel, scenes[at].board.display[panel]),
            ]
        }),
{
    law_run_terminations(scenes, turns, at);
    let before = scenes[at];
    assert(turned(before, turns[at], scenes[at + 1]));
    let asked = terminations(scenes, turns, at).map_values(|asked: (u16, ResourceView)| asked.0);
    assert(asked.len() == terminations(scenes, turns, at).len());
    let panel = touch_up(before.touch);
    assert(pending(before.touch)[0] == panel);
    assert((asked + pending(before.touch))[asked.len() as int] == panel);
}

/// A task that needs the permit.
pub enum Worker {
    Touch,
    Ec2,
    S3,
    DynamoDb,
}

impl Worker {
    /// The task waits for the permit.
    pub open spec fn waits(self, scene: Scene) -> bool {
        match self {
            Worker::Touch => scene.touch is Admitting,
            Worker::Ec2 => scene.ec2 is Admitting,
            Worker::S3 => scene.s3 is Admitting,
            Worker::DynamoDb => scene.dynamodb is Admitting,
        }
    }

    /// The task holds the permit.
    pub open spec fn holds(self, scene: Scene) -> bool {
        match self {
            Worker::Touch => scene.touch.holds_permit(),
            Worker::Ec2 => scene.ec2.holds_permit(),
            Worker::S3 => scene.s3.holds_permit(),
            Worker::DynamoDb => scene.dynamodb.holds_permit(),
        }
    }

    /// It is the turn of the task.
    pub open spec fn moves(self, turn: Turn) -> bool {
        match self {
            Worker::Touch => turn is Touch,
            Worker::Ec2 => turn is Ec2,
            Worker::S3 => turn is S3,
            Worker::DynamoDb => turn is DynamoDb,
        }
    }

    /// The turn begins a pass of the task: a message came, or a tick.
    pub open spec fn begins(self, turn: Turn) -> bool {
        match (self, turn) {
            (Worker::Touch, Turn::Touch { signal, .. }) => signal is Message,
            (Worker::Ec2, Turn::Ec2 { signal, .. }) => signal is Tick,
            (Worker::S3, Turn::S3 { signal, .. }) => signal is Tick,
            (Worker::DynamoDb, Turn::DynamoDb { signal, .. }) => signal is Tick,
            _ => false,
        }
    }

    /// The turn gives the task the permit.
    pub open spec fn admitted(self, turn: Turn) -> bool {
        self.moves(turn) && turn.takes_permit()
    }

    /// The turn ends a pass of the task, and the task gives the permit back.
    pub open spec fn ends(self, turn: Turn) -> bool {
        match (self, turn) {
            (Worker::Touch, Turn::Touch { action, .. }) => action is AwaitMessage,
            (Worker::Ec2, Turn::Ec2 { action, .. }) => action is Rest || action is OutOfPanels,
            (Worker::S3, Turn::S3 { action, .. }) => action is Rest || action is OutOfPanels,
            (Worker::DynamoDb, Turn::DynamoDb { action, .. }) => {
                action is Rest || action is OutOfPanels
            },
            _ => false,
        }
    }

    /// How many of the first `end` turns begin a pass of the task.
    pub open spec fn begun(self, turns: Seq<Turn>, end: int) -> nat
        decreases end,
    {
        if end <= 0 {
            0
        } else {
            self.begun(turns, end - 1) + one_if(self.begins(turns[end - 1]))
        }
    }

    /// How many times the first `end` turns give the task the permit.
    pub open spec fn permits(self, turns: Seq<Turn>, end: int) -> nat
        decreases end,
    {
        if end <= 0 {
            0
        } else {
            self.permits(turns, end - 1) + one_if(self.admitted(turns[end - 1]))
        }
    }

    /// How many of the first `end` turns end a pass of the task.
    pub open spec fn ended(self, turns: Seq<Turn>, end: int) -> nat
        decreases end,
    {
        if end <= 0 {
            0
        } else {
            self.ended(turns, end - 1) + one_if(self.ends(turns[end - 1]))
        }
    }
}

/// One where something holds, else none.
pub open spec fn one_if(holds: bool) -> nat {
    if holds {
        1
    } else {
        0
    }
}

/// In every run from the start, each pass of a task takes the permit once, after the message or the
/// tick that begins it, and gives it back once, when it ends, whatever the listing held; between
/// passes the task has none.
pub proof fn law_run_passes(scenes: Seq<Scene>, turns: Seq<Turn>, worker: Worker, end: int)
    requires
        runs(scenes, turns),
        scenes[0].at_start(),
        0 <= end <= turns.len(),
    ensures
        worker.begun(turns, end) == worker.permits(turns, end) + one_if(worker.waits(scenes[end])),
        worker.permits(turns, end) == worker.ended(turns, end) + one_if(worker.holds(scenes[end])),
    decreases end,
{
    if end > 0 {
        law_run_passes(scenes, turns, worker, end - 1);
        assert(turned(scenes[end - 1], turns[end - 1], scenes[end]));
    }
}

/// How many requests to the controller the first `end` turns ask for.
pub open spec fn frames_sent(turns: Seq<Turn>, end: int) -> nat
    decreases end,
{
    if end <= 0 {
        0
    } else {
        frames_sent(turns, end - 1) + one_if(
            turns[end - 1] is Show && turns[end - 1]->Show_action is Send,
        )
    }
}

/// How many ticks of the task that shows the board there are in the first `end` turns.
pub open spec fn show_ticks(turns: Seq<Turn>, end: int) -> nat
    decreases end,
{
    if end <= 0 {
        0
    } else {
        show_ticks(turns, end - 1) + one_if(
            turns[end - 1] is Show && turns[end - 1]->Show_signal is Tick,
        )
    }
}

/// In every run from the start, each tick of the task that shows the board sends one frame, and
/// nothing else does: at most the last one is still being drawn.
pub proof fn law_run_frames(scenes: Seq<Scene>, turns: Seq<Turn>, end: int)
    requires
        runs(scenes, turns),
        scenes[0].at_start(),
        0 <= end <= turns.len(),
    ensures
        show_ticks(turns, end) == frames_sent(turns, end) + one_if(scenes[end].show is Listed),
    decreases end,
{
    if end > 0 {
        law_run_frames(scenes, turns, end - 1);
        assert(turned(scenes[end - 1], turns[end - 1], scenes[end]));
    }
}

/// In every run, the frame that is drawn after a tick shows the panels that were lit at the tick,
/// each in the color of its resource, and then the panels that are free when it is sent. It goes to
/// the effects of the controller.
pub proof fn law_run_frame(scenes: Seq<Scene>, turns: Seq<Turn>, from: int, to: int)
    requires
        runs(scenes, turns),
        0 <= from < to < turns.len(),
        turns[from] is Show,
        turns[from]->Show_signal is Tick,
        forall|k: int| from < k < to ==> !(#[trigger] turns[k] is Show),
        turns[to] is Show,
    ensures
        scenes[to].show is Listed,
        lists(scenes[to].show->lit, scenes[from].board.display),
        turns[to]->Show_action == ShowActionView::Send(
            frame_request(
                turns[to]->Show_api_url,
                frame(
                    turns[to]->Show_panel_count,
                    board_cells(scenes[to].show->lit, scenes[to].board.available),
                ),
            ),
        ),
{
    assert(turned(scenes[from], turns[from], scenes[from + 1]));
    lemma_show_waits(scenes, turns, from + 1, to);
    assert(turned(scenes[to], turns[to], scenes[to + 1]));
}

/// The task that shows the board stays where it is while the others have their turns.
proof fn lemma_show_waits(scenes: Seq<Scene>, turns: Seq<Turn>, from: int, to: int)
    requires
        runs(scenes, turns),
        0 <= from <= to <= turns.len(),
        forall|k: int| from <= k < to ==> !(#[trigger] turns[k] is Show),
    ensures
        scenes[to].show == scenes[from].show,
    decreases to - from,
{
    if from < to {
        lemma_show_waits(scenes, turns, from, to - 1);
        assert(turned(scenes[to - 1], turns[to - 1], scenes[to]));
    }
}

/// How many listings the first `end` turns ask for on behalf of a task.
pub open spec fn listings(worker: Worker, turns: Seq<Turn>, end: int) -> nat
    decreases end,
{
    if end <= 0 {
        0
    } else {
        listings(worker, turns, end - 1) + one_if(
            match (worker, turns[end - 1]) {
                (Worker::Ec2, Turn::Ec2 { action, .. }) => action is DescribeInstances,
                (Worker::S3, Turn::S3 { action, .. }) => action is ListBuckets,
                (Worker::DynamoDb, Turn::DynamoDb { action, .. }) => action is ListTables,
                _ => false,
            },
        )
    }
}

/// In every run, a task that looks for resources asks its service for one listing each time that it
/// gets the permit.
pub proof fn law_run_listings(scenes: Seq<Scene>, turns: Seq<Turn>, worker: Worker, end: int)
    requires
        runs(scenes, turns),
        !(worker is Touch),
        0 <= end <= turns.len(),
    ensures
        listings(worker, turns, end) == worker.permits(turns, end),
    decreases end,
{
    if end > 0 {
        law_run_listings(scenes, turns, worker, end - 1);
        assert(turned(scenes[end - 1], turns[end - 1], scenes[end]));
    }
}

} // verus!
