//! The task that looks for active tables.

use crate::board::{board, discover, discovery, lacks_panel, law_look, law_shows, Board};
use crate::display::Display;
use crate::resource::{AWSResource, ResourceView};
use vstd::prelude::*;

verus! {

/// The status of a table.
#[derive(Debug)]
pub enum TableStatus {
    Active,
    Archived,
    Archiving,
    Creating,
    Deleting,
    InaccessibleEncryptionCredentials,
    Updating,
    /// A status without a name here, by its text.
    Unknown(String),
}

/// What is known of a table.
#[derive(Debug)]
pub struct TableDescription {
    pub table_status: Option<TableStatus>,
}

/// The names of a list of tables by their texts.
pub open spec fn table_names(tables: Seq<String>) -> Seq<Seq<char>> {
    tables.map_values(|name: String| name@)
}

/// Where the task stands.
#[derive(Debug)]
pub enum DynamoDbState {
    /// Waiting for the next tick.
    Idle,
    /// Waiting for the permit to work.
    Admitting,
    /// Waiting for the listing.
    Listing,
    /// About to look at the table at `next`.
    Ready { tables: Vec<String>, next: usize },
    /// Waiting for the description of the table at `next`.
    Describing { tables: Vec<String>, next: usize },
}

/// A [`DynamoDbState`], the tables by their names.
#[verifier::ext_equal]
pub enum DynamoDbStateView {
    Idle,
    Admitting,
    Listing,
    Ready { names: Seq<Seq<char>>, next: int },
    Describing { names: Seq<Seq<char>>, next: int },
}

impl View for DynamoDbState {
    type V = DynamoDbStateView;

    open spec fn view(&self) -> DynamoDbStateView {
        match self {
            DynamoDbState::Idle => DynamoDbStateView::Idle,
            DynamoDbState::Admitting => DynamoDbStateView::Admitting,
            DynamoDbState::Listing => DynamoDbStateView::Listing,
            DynamoDbState::Ready { tables, next } => DynamoDbStateView::Ready {
                names: table_names(tables@),
                next: *next as int,
            },
            DynamoDbState::Describing { tables, next } => DynamoDbStateView::Describing {
                names: table_names(tables@),
                next: *next as int,
            },
        }
    }
}

/// What has happened outside.
#[derive(Debug)]
pub enum DynamoDbSignal {
    /// The interval is over.
    Tick,
    /// The permit was given.
    Permit,
    /// The listing came.
    Tables(Option<Vec<String>>),
    /// Nothing: the task goes on by itself.
    Proceed,
    /// The description of the table came.
    Description(Option<TableDescription>),
}

/// A [`DynamoDbSignal`], the tables by their names.
pub enum DynamoDbSignalView {
    Tick,
    Permit,
    Tables(Option<Seq<Seq<char>>>),
    Proceed,
    Description(Option<TableDescription>),
}

impl View for DynamoDbSignal {
    type V = DynamoDbSignalView;

    open spec fn view(&self) -> DynamoDbSignalView {
        match self {
            DynamoDbSignal::Tick => DynamoDbSignalView::Tick,
            DynamoDbSignal::Permit => DynamoDbSignalView::Permit,
            DynamoDbSignal::Tables(Some(tables)) => DynamoDbSignalView::Tables(
                Some(table_names(tables@)),
            ),
            DynamoDbSignal::Tables(None) => DynamoDbSignalView::Tables(None),
            DynamoDbSignal::Proceed => DynamoDbSignalView::Proceed,
            DynamoDbSignal::Description(table) => DynamoDbSignalView::Description(*table),
        }
    }
}

/// What is to be done outside.
#[derive(Debug)]
pub enum DynamoDbAction {
    /// Take the permit to work.
    AcquirePermit,
    /// Ask for a listing of the tables.
    ListTables,
    /// Ask for the description of the table with this name.
    DescribeTable(String),
    /// Nothing: go on at once. The panel was lit for the table that was looked at, if any was.
    Proceed(Option<u16>),
    /// Give the permit back and wait for the next tick.
    Rest,
    /// Give up: no panel is free for this table.
    OutOfPanels(AWSResource),
}

/// A [`DynamoDbAction`], the name and the resource by their views.
pub enum DynamoDbActionView {
    AcquirePermit,
    ListTables,
    DescribeTable(Seq<char>),
    Proceed(Option<u16>),
    Rest,
    OutOfPanels(ResourceView),
}

impl View for DynamoDbAction {
    type V = DynamoDbActionView;

    open spec fn view(&self) -> DynamoDbActionView {
        match self {
            DynamoDbAction::AcquirePermit => DynamoDbActionView::AcquirePermit,
            DynamoDbAction::ListTables => DynamoDbActionView::ListTables,
            DynamoDbAction::DescribeTable(name) => DynamoDbActionView::DescribeTable(name@),
            DynamoDbAction::Proceed(panel) => DynamoDbActionView::Proceed(*panel),
            DynamoDbAction::Rest => DynamoDbActionView::Rest,
            DynamoDbAction::OutOfPanels(table) => DynamoDbActionView::OutOfPanels(table@),
        }
    }
}

/// The table is described, with its status.
pub open spec fn described(table: Option<TableDescription>) -> bool {
    table is Some && table->0.table_status is Some
}

/// The table is active.
pub open spec fn active(table: Option<TableDescription>) -> bool {
    table->0.table_status->0 is Active
}

impl DynamoDbStateView {
    /// The position is within the tables, and at a table while one is looked at.
    pub open spec fn wf(self) -> bool {
        match self {
            DynamoDbStateView::Ready { names, next } => 0 <= next <= names.len(),
            DynamoDbStateView::Describing { names, next } => 0 <= next < names.len(),
            _ => true,
        }
    }

    /// The task holds the permit to work.
    pub open spec fn holds_permit(self) -> bool {
        !(self is Idle) && !(self is Admitting)
    }

    /// The signal is one that the state waits for.
    pub open spec fn expects(self, signal: DynamoDbSignalView) -> bool {
        match self {
            DynamoDbStateView::Idle => signal is Tick,
            DynamoDbStateView::Admitting => signal is Permit,
            DynamoDbStateView::Listing => signal is Tables,
            DynamoDbStateView::Ready { .. } => signal is Proceed,
            DynamoDbStateView::Describing { .. } => signal is Description,
        }
    }

    /// The description that the signal brings, if it brings one, tells the status.
    pub open spec fn status_known(self, signal: DynamoDbSignalView) -> bool {
        self is Describing ==> described(signal->Description_0)
    }
}

/// One step of the task leads to this: the next state, what is to be done, and the board.
pub open spec fn dynamodb_moved(
    state: DynamoDbStateView,
    signal: DynamoDbSignalView,
    before: Board,
    pick: int,
    next_state: DynamoDbStateView,
    action: DynamoDbActionView,
    after: Board,
) -> bool {
    match state {
        DynamoDbStateView::Idle => {
            &&& next_state is Admitting
            &&& action is AcquirePermit
            &&& after == before
        },
        DynamoDbStateView::Admitting => {
            &&& next_state is Listing
            &&& action is ListTables
            &&& after == before
        },
        DynamoDbStateView::Listing => {
            &&& match signal->Tables_0 {
                Some(names) => if names.len() > 0 {
                    &&& next_state == DynamoDbStateView::Ready { names, next: 0 }
                    &&& action == DynamoDbActionView::Proceed(None)
                } else {
                    next_state is Idle && action is Rest
                },
                None => next_state is Idle && action is Rest,
            }
            &&& after == before
        },
        DynamoDbStateView::Ready { names, next } => {
            &&& if next < names.len() {
                &&& next_state == DynamoDbStateView::Describing { names, next }
                &&& action == DynamoDbActionView::DescribeTable(names[next])
            } else {
                next_state is Idle && action is Rest
            }
            &&& after == before
        },
        DynamoDbStateView::Describing { names, next } => {
            let table = ResourceView::Table(names[next]);
            if !active(signal->Description_0) {
                &&& next_state == DynamoDbStateView::Ready { names, next: next + 1 }
                &&& action == DynamoDbActionView::Proceed(None)
                &&& after == before
            } else if before.lacks_panel(table) {
                &&& next_state is Idle
                &&& action == DynamoDbActionView::OutOfPanels(table)
                &&& after == before
            } else {
                &&& next_state == DynamoDbStateView::Ready { names, next: next + 1 }
                &&& action is Proceed
                &&& discovery(before, table, pick, after, action->Proceed_0)
            }
        },
    }
}

fn is_active(table: &Option<TableDescription>) -> (yes: bool)
    requires
        described(*table),
    ensures
        yes == active(*table),
{
    match table {
        Some(TableDescription { table_status: Some(TableStatus::Active) }) => true,
        _ => false,
    }
}

/// Takes the task one step on. After a tick and the permit it asks for the tables, and for each in
/// turn for its description; an active table that is not shown yet gets a free panel, picked by
/// chance. Where none is free, the pass ends there.
pub fn monitor_dynamodb(
    state: DynamoDbState,
    signal: DynamoDbSignal,
    display: &mut Display,
    available: &mut Vec<u16>,
) -> (step: (DynamoDbState, DynamoDbAction))
    requires
        old(display).wf(),
        state@.wf(),
        state@.expects(signal@),
        state@.status_known(signal@),
    ensures
        final(display).wf(),
        step.0@.wf(),
        exists|pick: int|
            #[trigger] dynamodb_moved(
                state@,
                signal@,
                board(*old(display), *old(available)),
                pick,
                step.0@,
                step.1@,
                board(*final(display), *final(available)),
            ),
        state matches DynamoDbState::Ready { tables, next } ==> next < tables@.len() ==> (
        step.1 is DescribeTable && step.1->DescribeTable_0@ == tables@[next as int]@),
        state matches DynamoDbState::Ready { tables, next } ==> (step.1 is Rest <==> next
            == tables@.len()),
        !(state is Describing) ==> (final(display)@ == old(display)@ && final(available)@ == old(
            available,
        )@),
        state matches DynamoDbState::Describing { tables, next } ==> (
        signal->Description_0->0.table_status->0 is Active && !(step.1 is OutOfPanels)
            ==> final(display)@.contains_value(ResourceView::Table(tables@[next as int]@))),
{
    let ghost before = board(*display, *available);
    let ghost from = state@;
    let ghost by = signal@;
    let ghost mut chosen: int = 0;
    let step = match (state, signal) {
        (DynamoDbState::Idle, _) => (DynamoDbState::Admitting, DynamoDbAction::AcquirePermit),
        (DynamoDbState::Admitting, _) => (DynamoDbState::Listing, DynamoDbAction::ListTables),
        (DynamoDbState::Listing, DynamoDbSignal::Tables(Some(tables))) => {
            if tables.len() > 0 {
                (DynamoDbState::Ready { tables, next: 0 }, DynamoDbAction::Proceed(None))
            } else {
                (DynamoDbState::Idle, DynamoDbAction::Rest)
            }
        },
        (DynamoDbState::Listing, _) => (DynamoDbState::Idle, DynamoDbAction::Rest),
        (DynamoDbState::Ready { tables, next }, _) => {
            if next < tables.len() {
                let name = tables[next].clone();
                (DynamoDbState::Describing { tables, next }, DynamoDbAction::DescribeTable(name))
            } else {
                (DynamoDbState::Idle, DynamoDbAction::Rest)
            }
        },
        (DynamoDbState::Describing { tables, next }, DynamoDbSignal::Description(description)) => {
            assert(next < tables.len());
            if !is_active(&description) {
                (DynamoDbState::Ready { tables, next: next + 1 }, DynamoDbAction::Proceed(None))
            } else {
                let table = AWSResource::Table(tables[next].clone());
                if lacks_panel(display, available, &table) {
                    (DynamoDbState::Idle, DynamoDbAction::OutOfPanels(table))
                } else {
                    let panel = discover(display, available, &table);
                    proof {
                        chosen = choose|pick: int|
                            #[trigger] discovery(
                                before,
                                table@,
                                pick,
                                board(*display, *available),
                                panel,
                            );
                    }
                    (
                        DynamoDbState::Ready { tables, next: next + 1 },
                        DynamoDbAction::Proceed(panel),
                    )
                }
            }
        },
        (DynamoDbState::Describing { .. }, _) => (DynamoDbState::Idle, DynamoDbAction::Rest),
    };
    assert(dynamodb_moved(
        from,
        by,
        before,
        chosen,
        step.0@,
        step.1@,
        board(*display, *available),
    ));
    step
}

/// The permit: the task asks for listings and descriptions, and lights panels, only while it holds
/// the permit, comes to hold it only by the signal that it was given, and gives it back when it
/// rests or gives up.
pub proof fn law_dynamodb_permit(
    state: DynamoDbStateView,
    signal: DynamoDbSignalView,
    before: Board,
    pick: int,
    next_state: DynamoDbStateView,
    action: DynamoDbActionView,
    after: Board,
)
    requires
        state.expects(signal),
        dynamodb_moved(state, signal, before, pick, next_state, action, after),
    ensures
        action is ListTables || action is DescribeTable || action is Proceed
            ==> next_state.holds_permit(),
        action is AcquirePermit || action is Rest || action is OutOfPanels
            ==> !next_state.holds_permit(),
        !state.holds_permit() && next_state.holds_permit() ==> signal is Permit,
        state.holds_permit() && !next_state.holds_permit() ==> action is Rest
            || action is OutOfPanels,
        after != before ==> state.holds_permit(),
{
}

/// The names of a list of tables: as many as there are tables, and each the name in its place.
pub proof fn law_table_names(tables: Seq<String>)
    ensures
        table_names(tables).len() == tables.len(),
        forall|i: int| 0 <= i < tables.len() ==> #[trigger] table_names(tables)[i] == tables[i]@,
{
}

/// A table is active exactly if its status says so, and described exactly if it has a status.
pub proof fn law_active(table: TableDescription)
    ensures
        described(Some(table)) <==> table.table_status is Some,
        !described(None),
        table.table_status matches Some(status) ==> (active(Some(table)) <==> status is Active),
{
}

/// In which states the task takes which signals. The status of a table that is looked at is known.
pub proof fn law_dynamodb_takes(state: DynamoDbState, signal: DynamoDbSignal)
    ensures
        state@.wf() && state@.expects(signal@) && state@.status_known(signal@) <==> match state {
            DynamoDbState::Idle => signal is Tick,
            DynamoDbState::Admitting => signal is Permit,
            DynamoDbState::Listing => signal is Tables,
            DynamoDbState::Ready { tables, next } => signal is Proceed && next <= tables@.len(),
            DynamoDbState::Describing { tables, next } => {
                &&& signal matches DynamoDbSignal::Description(table)
                &&& table is Some
                &&& table->0.table_status is Some
                &&& next < tables@.len()
            },
        },
{
    match state {
        DynamoDbState::Ready { tables, next } => law_table_names(tables@),
        DynamoDbState::Describing { tables, next } => law_table_names(tables@),
        _ => {},
    }
}

/// A pass begins with the permit and a request for all tables. Nothing changes until the first
/// description comes. A listing without tables ends the pass at once; else the first one is up.
pub proof fn law_dynamodb_lists(
    state: DynamoDbState,
    signal: DynamoDbSignal,
    before: Board,
    pick: int,
    next_state: DynamoDbStateView,
    action: DynamoDbActionView,
    after: Board,
)
    requires
        state@.expects(signal@),
        dynamodb_moved(state@, signal@, before, pick, next_state, action, after),
    ensures
        state is Idle ==> {
            action is AcquirePermit && next_state == DynamoDbState::Admitting@ && after == before
        },
        state is Admitting ==> {
            action is ListTables && next_state == DynamoDbState::Listing@ && after == before
        },
        state is Listing ==> after == before && match signal {
            DynamoDbSignal::Tables(Some(tables)) => if tables@.len() > 0 {
                &&& action == DynamoDbActionView::Proceed(None)
                &&& next_state == (DynamoDbState::Ready { tables, next: 0 })@
            } else {
                action is Rest && next_state == DynamoDbState::Idle@
            },
            _ => action is Rest && next_state == DynamoDbState::Idle@,
        },
{
    if let DynamoDbSignal::Tables(Some(tables)) = signal {
        law_table_names(tables@);
    }
}

/// The table that is up has its description asked for, by its own name, and the task rests only when
/// there is none left.
pub proof fn law_dynamodb_asks(
    tables: Vec<String>,
    next: usize,
    before: Board,
    pick: int,
    next_state: DynamoDbStateView,
    action: DynamoDbActionView,
    after: Board,
)
    requires
        dynamodb_moved(
            (DynamoDbState::Ready { tables, next })@,
            DynamoDbSignalView::Proceed,
            before,
            pick,
            next_state,
            action,
            after,
        ),
    ensures
        after == before,
        next < tables@.len() ==> action == DynamoDbActionView::DescribeTable(tables@[next as int]@)
            && next_state == (DynamoDbState::Describing { tables, next })@,
        next >= tables@.len() ==> action is Rest && next_state == DynamoDbState::Idle@,
{
    law_table_names(tables@);
}

/// What a description leads to. A table that is not active, and one that is shown, changes nothing.
/// An active table that is not shown takes one of the free panels, which then stands for it, and all
/// other lit panels are as they were; where none is free, the task gives up and nothing changes.
/// Unless the task gives up, the next table is up.
pub proof fn law_dynamodb_described(
    tables: Vec<String>,
    next: usize,
    later: usize,
    description: TableDescription,
    before: Board,
    pick: int,
    next_state: DynamoDbStateView,
    action: DynamoDbActionView,
    after: Board,
)
    requires
        next < tables@.len(),
        later == next + 1,
        description.table_status is Some,
        dynamodb_moved(
            (DynamoDbState::Describing { tables, next })@,
            DynamoDbSignal::Description(Some(description))@,
            before,
            pick,
            next_state,
            action,
            after,
        ),
    ensures
        ({
            let table = ResourceView::Table(tables@[next as int]@);
            let wanted = description.table_status->0 is Active;
            let shown = before.display.contains_value(table);
            &&& !wanted || shown ==> {
                action == DynamoDbActionView::Proceed(None) && after == before
            }
            &&& wanted && !shown && before.available.len() == 0 ==> {
                &&& action == DynamoDbActionView::OutOfPanels(table)
                &&& next_state == DynamoDbState::Idle@
                &&& after == before
            }
            &&& wanted && !shown && before.available.len() > 0 ==> {
                &&& action matches DynamoDbActionView::Proceed(Some(panel))
                &&& before.available.contains(panel)
                &&& after.display == before.display.insert(panel, table)
                &&& after.available.to_multiset().insert(panel) == before.available.to_multiset()
            }
            &&& action is Proceed ==> next_state == (DynamoDbState::Ready { tables, next: later })@
        }),
{
    let table = ResourceView::Table(tables@[next as int]@);
    law_table_names(tables@);
    law_active(description);
    law_shows(before, table);
    if active(Some(description)) && !before.lacks_panel(table) {
        law_look(before, table, pick, after, action->Proceed_0);
    }
}

/// A state is told by its view: the same kind of state, the same names and the same position.
pub proof fn law_dynamodb_state(a: DynamoDbState, b: DynamoDbState)
    requires
        a@ == b@,
    ensures
        a is Idle <==> b is Idle,
        a is Admitting <==> b is Admitting,
        a is Listing <==> b is Listing,
        a matches DynamoDbState::Ready { tables, next } ==> (b is Ready && next == b->Ready_next
            && tables@.len() == b->Ready_tables@.len() && table_names(tables@) == table_names(
            b->Ready_tables@,
        )),
        a matches DynamoDbState::Describing { tables, next } ==> (b is Describing && next
            == b->Describing_next && tables@.len() == b->Describing_tables@.len() && table_names(
            tables@,
        ) == table_names(b->Describing_tables@)),
{
    match (a, b) {
        (DynamoDbState::Ready { tables, .. }, DynamoDbState::Ready { tables: others, .. }) => {
            law_table_names(tables@);
            law_table_names(others@);
        },
        (
            DynamoDbState::Describing { tables, .. },
            DynamoDbState::Describing { tables: others, .. },
        ) => {
            law_table_names(tables@);
            law_table_names(others@);
        },
        _ => {},
    }
}

/// What an action asks for is what its view says.
pub proof fn law_dynamodb_action(action: DynamoDbAction)
    ensures
        match action {
            DynamoDbAction::AcquirePermit => action@ is AcquirePermit,
            DynamoDbAction::ListTables => action@ is ListTables,
            DynamoDbAction::DescribeTable(name) => {
                action@ == DynamoDbActionView::DescribeTable(name@)
            },
            DynamoDbAction::Proceed(panel) => action@ == DynamoDbActionView::Proceed(panel),
            DynamoDbAction::Rest => action@ is Rest,
            DynamoDbAction::OutOfPanels(table) => {
                action@ == DynamoDbActionView::OutOfPanels(table@)
            },
        },
{
}

} // verus!
