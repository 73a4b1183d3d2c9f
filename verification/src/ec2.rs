//! The task that looks for running instances.

use crate::board::{board, discover_all, option_view, resources_view, swept, Board};
use crate::display::{pairs_view, Display};
use crate::resource::{AWSResource, ResourceView};
use vstd::prelude::*;

verus! {

/// An instance of a listing.
#[derive(Debug)]
pub struct Instance {
    pub instance_id: Option<String>,
}

/// A group of instances of a listing.
#[derive(Debug)]
pub struct Reservation {
    pub instances: Option<Vec<Instance>>,
}

/// The listing is restricted to the instances whose attribute `name` has the value `value`.
#[derive(Debug)]
pub struct InstanceFilter {
    pub name: String,
    pub value: String,
}

/// Where the task stands.
#[derive(Debug, Clone, Copy, PartialEq, Eq, Structural)]
pub enum Ec2State {
    /// Waiting for the next tick.
    Idle,
    /// Waiting for the permit to work.
    Admitting,
    /// Waiting for the listing.
    Describing,
}

/// What has happened outside.
#[derive(Debug)]
pub enum Ec2Signal {
    /// The interval is over.
    Tick,
    /// The permit was given.
    Permit,
    /// The listing came.
    Instances(Option<Vec<Reservation>>),
}

/// What is to be done outside.
#[derive(Debug)]
pub enum Ec2Action {
    /// Take the permit to work.
    AcquirePermit,
    /// Ask for a listing.
    DescribeInstances(InstanceFilter),
    /// Give the permit back and wait for the next tick. These panels were lit.
    Rest(Vec<(u16, AWSResource)>),
    /// Give up: after these panels were lit, none was free for this instance.
    OutOfPanels(Vec<(u16, AWSResource)>, AWSResource),
}

/// An [`Ec2Action`], the texts and resources by their views.
pub enum Ec2ActionView {
    AcquirePermit,
    DescribeInstances { name: Seq<char>, value: Seq<char> },
    Rest(Seq<(u16, ResourceView)>),
    OutOfPanels(Seq<(u16, ResourceView)>, ResourceView),
}

impl View for Ec2Action {
    type V = Ec2ActionView;

    open spec fn view(&self) -> Ec2ActionView {
        match self {
            Ec2Action::AcquirePermit => Ec2ActionView::AcquirePermit,
            Ec2Action::DescribeInstances(filter) => Ec2ActionView::DescribeInstances {
                name: filter.name@,
                value: filter.value@,
            },
            Ec2Action::Rest(found) => Ec2ActionView::Rest(pairs_view(found@)),
            Ec2Action::OutOfPanels(found, missed) => Ec2ActionView::OutOfPanels(
                pairs_view(found@),
                missed@,
            ),
        }
    }
}

impl Ec2State {
    /// The signal is one that the state waits for.
    pub open spec fn expects(self, signal: Ec2Signal) -> bool {
        match self {
            Ec2State::Idle => signal is Tick,
            Ec2State::Admitting => signal is Permit,
            Ec2State::Describing => signal is Instances,
        }
    }

    /// The task holds the permit to work.
    pub open spec fn holds_permit(self) -> bool {
        self is Describing
    }
}

/// The instances of a group, as resources.
pub open spec fn group_resources(reservation: Reservation) -> Seq<ResourceView> {
    match reservation.instances {
        Some(instances) => instances@.map_values(
            |instance: Instance| ResourceView::Instance(instance.instance_id->0@),
        ),
        None => Seq::empty(),
    }
}

/// The instances of a list of groups, group by group.
pub open spec fn groups_resources(reservations: Seq<Reservation>) -> Seq<ResourceView>
    decreases reservations.len(),
{
    if reservations.len() == 0 {
        Seq::empty()
    } else {
        groups_resources(reservations.drop_last()) + group_resources(reservations.last())
    }
}

/// The instances of a listing, as resources, in the order of the listing.
pub open spec fn instance_resources(listing: Option<Vec<Reservation>>) -> Seq<ResourceView> {
    match listing {
        Some(reservations) => groups_resources(reservations@),
        None => Seq::empty(),
    }
}

/// Every instance of the group has an id.
pub open spec fn group_identified(reservation: Reservation) -> bool {
    reservation.instances matches Some(instances) ==> forall|i: int|
        0 <= i < instances@.len() ==> (#[trigger] instances@[i]).instance_id is Some
}

/// Every instance of the listing has an id.
pub open spec fn identified(listing: Option<Vec<Reservation>>) -> bool {
    listing matches Some(reservations) ==> forall|i: int|
        0 <= i < reservations@.len() ==> group_identified(#[trigger] reservations@[i])
}

/// Whether every instance of the group has an id.
fn all_in_group_identified(reservation: &Reservation) -> (all: bool)
    ensures
        all == group_identified(*reservation),
{
    if let Some(instances) = &reservation.instances {
        let mut i: usize = 0;
        while i < instances.len()
            invariant
                0 <= i <= instances.len(),
                reservation.instances == Some(*instances),
                forall|a: int| 0 <= a < i ==> (#[trigger] instances@[a]).instance_id is Some,
            decreases instances.len() - i,
        {
            if instances[i].instance_id.is_none() {
                assert(instances@[i as int].instance_id is None);
                return false;
            }
            i += 1;
        }
    }
    true
}

/// Whether every instance of the listing has an id.
pub fn all_identified(listing: &Option<Vec<Reservation>>) -> (all: bool)
    ensures
        all == identified(*listing),
{
    if let Some(reservations) = listing {
        let mut i: usize = 0;
        while i < reservations.len()
            invariant
                0 <= i <= reservations.len(),
                *listing == Some(*reservations),
                forall|a: int| 0 <= a < i ==> group_identified(#[trigger] reservations@[a]),
            decreases reservations.len() - i,
        {
            if !all_in_group_identified(&reservations[i]) {
                assert(!group_identified(listing->0@[i as int]));
                return false;
            }
            i += 1;
        }
    }
    true
}

/// The instances of a listing, as resources, in the order of the listing. A listing without
/// groups, and a group without instances, has none.
pub fn listed_instances(listing: &Option<Vec<Reservation>>) -> (resources: Vec<AWSResource>)
    requires
        identified(*listing),
    ensures
        resources_view(resources@) == instance_resources(*listing),
        listing is None ==> resources@.len() == 0,
        listing matches Some(reservations) ==> forall|i: int, j: int|
            0 <= i < reservations@.len() && reservations@[i].instances is Some && 0 <= j
                < reservations@[i].instances->0@.len() ==> resources_view(resources@).contains(
                ResourceView::Instance(
                    (#[trigger] reservations@[i].instances->0@[j]).instance_id->0@,
                ),
            ),
{
    let mut resources: Vec<AWSResource> = Vec::new();
    assert(resources_view(resources@) =~= Seq::empty());
    if let Some(reservations) = listing {
        let mut i: usize = 0;
        while i < reservations.len()
            invariant
                0 <= i <= reservations.len(),
                forall|a: int|
                    0 <= a < reservations@.len() ==> group_identified(#[trigger] reservations@[a]),
                resources_view(resources@) == groups_resources(reservations@.take(i as int)),
            decreases reservations.len() - i,
        {
            let ghost before = resources_view(resources@);
            let ghost group = group_resources(reservations@[i as int]);
            assert(group_identified(reservations@[i as int]));
            if let Some(instances) = &reservations[i].instances {
                let mut j: usize = 0;
                assert(before =~= before + group.take(0));
                while j < instances.len()
                    invariant
                        0 <= j <= instances.len(),
                        forall|b: int|
                            0 <= b < instances@.len() ==> (
                            #[trigger] instances@[b]).instance_id is Some,
                        group == instances@.map_values(
                            |instance: Instance| ResourceView::Instance(instance.instance_id->0@),
                        ),
                        resources_view(resources@) == before + group.take(j as int),
                    decreases instances.len() - j,
                {
                    let ghost gathered = resources@;
                    if let Some(id) = &instances[j].instance_id {
                        resources.push(AWSResource::Instance(id.clone()));
                    }
                    assert(resources_view(resources@) =~= resources_view(gathered).push(
                        group[j as int],
                    ));
                    assert(before + group.take(j + 1) =~= (before + group.take(j as int)).push(
                        group[j as int],
                    ));
                    j += 1;
                }
                assert(group.take(j as int) =~= group);
            } else {
                assert(before + group =~= before);
            }
            assert(reservations@.take(i + 1).drop_last() =~= reservations@.take(i as int));
            i += 1;
        }
        assert(reservations@.take(i as int) =~= reservations@);
        assert forall|i: int, j: int|
            0 <= i < reservations@.len() && reservations@[i].instances is Some && 0 <= j
                < reservations@[i].instances->0@.len() implies resources_view(resources@).contains(
            ResourceView::Instance((#[trigger] reservations@[i].instances->0@[j]).instance_id->0@),
        ) by {
            law_every_instance_listed(reservations@, i, j);
        }
    }
    resources
}

/// One step of the task leads to this: the next state, what is to be done, and the board.
pub open spec fn ec2_moved(
    signal: Ec2Signal,
    before: Board,
    picks: Seq<int>,
    next: Ec2State,
    action: Ec2ActionView,
    after: Board,
) -> bool {
    match signal {
        Ec2Signal::Tick => {
            &&& next == Ec2State::Admitting
            &&& action is AcquirePermit
            &&& after == before
        },
        Ec2Signal::Permit => {
            &&& next == Ec2State::Describing
            &&& action == Ec2ActionView::DescribeInstances {
                name: "instance-state-name"@,
                value: "running"@,
            }
            &&& after == before
        },
        Ec2Signal::Instances(listing) => {
            let resources = instance_resources(listing);
            &&& next == Ec2State::Idle
            &&& match action {
                Ec2ActionView::Rest(found) => swept(before, resources, picks, after, found, None),
                Ec2ActionView::OutOfPanels(found, missed) => {
                    &&& swept(before, resources, picks, after, found, Some(missed))
                    &&& !before.room(resources)
                    &&& before.available.len() < resources.len()
                },
                _ => false,
            }
        },
    }
}

/// Takes the task one step on. After a tick and the permit it asks for the running instances, and
/// every instance of the listing that is not shown yet gets a free panel, picked by chance. Where
/// none is free for one, the pass ends there.
pub fn monitor_ec2(
    state: Ec2State,
    signal: Ec2Signal,
    display: &mut Display,
    available: &mut Vec<u16>,
) -> (step: (Ec2State, Ec2Action))
    requires
        old(display).wf(),
        state.expects(signal),
        signal matches Ec2Signal::Instances(listing) ==> identified(listing),
    ensures
        final(display).wf(),
        exists|picks: Seq<int>|
            #[trigger] ec2_moved(
                signal,
                board(*old(display), *old(available)),
                picks,
                step.0,
                step.1@,
                board(*final(display), *final(available)),
            ),
{
    let ghost before = board(*display, *available);
    match signal {
        Ec2Signal::Tick => {
            let step = (Ec2State::Admitting, Ec2Action::AcquirePermit);
            assert(ec2_moved(signal, before, Seq::empty(), step.0, step.1@, before));
            step
        },
        Ec2Signal::Permit => {
            let filter = InstanceFilter {
                name: "instance-state-name".to_owned(),
                value: "running".to_owned(),
            };
            let step = (Ec2State::Describing, Ec2Action::DescribeInstances(filter));
            assert(ec2_moved(signal, before, Seq::empty(), step.0, step.1@, before));
            step
        },
        Ec2Signal::Instances(ref listing) => {
            let resources = listed_instances(listing);
            let (found, missed) = discover_all(display, available, &resources);
            let ghost picks = choose|picks: Seq<int>|
                #[trigger] swept(
                    before,
                    resources_view(resources@),
                    picks,
                    board(*display, *available),
                    pairs_view(found@),
                    option_view(missed),
                );
            let action = match missed {
                None => Ec2Action::Rest(found),
                Some(resource) => Ec2Action::OutOfPanels(found, resource),
            };
            let step = (Ec2State::Idle, action);
            assert(ec2_moved(
                signal,
                before,
                picks,
                step.0,
                step.1@,
                board(*display, *available),
            ));
            step
        },
    }
}

/// The permit: the task asks for a listing only while it holds the permit, comes to hold it only by
/// the signal that it was given, and gives it back when it rests or gives up.
pub proof fn law_ec2_permit(
    state: Ec2State,
    signal: Ec2Signal,
    before: Board,
    picks: Seq<int>,
    next: Ec2State,
    action: Ec2ActionView,
    after: Board,
)
    requires
        state.expects(signal),
        ec2_moved(signal, before, picks, next, action, after),
    ensures
        action is DescribeInstances ==> next.holds_permit(),
        action is AcquirePermit || action is Rest || action is OutOfPanels
            ==> !next.holds_permit(),
        !state.holds_permit() && next.holds_permit() ==> signal is Permit,
        state.holds_permit() && !next.holds_permit() ==> action is Rest || action is OutOfPanels,
        after != before ==> state.holds_permit(),
{
}

/// The instances of a group: as many as the group has, and each the instance in its place. A group
/// without a list of instances has none.
pub proof fn law_group(reservation: Reservation)
    ensures
        reservation.instances is None ==> group_resources(reservation).len() == 0,
        reservation.instances matches Some(instances) ==> (group_resources(reservation).len()
            == instances@.len() && forall|j: int|
            0 <= j < instances@.len() ==> #[trigger] group_resources(reservation)[j]
                == ResourceView::Instance(instances@[j].instance_id->0@)),
{
}

/// How many instances a list of groups has: as many as the groups have together.
pub proof fn law_groups_len(reservations: Seq<Reservation>)
    ensures
        groups_resources(reservations).len() == reservations.fold_left(
            0int,
            |sum: int, reservation: Reservation|
                sum + match reservation.instances {
                    Some(instances) => instances@.len() as int,
                    None => 0,
                },
        ),
    decreases reservations.len(),
{
    reveal(Seq::fold_left);
    if reservations.len() > 0 {
        law_group(reservations.last());
        law_groups_len(reservations.drop_last());
    }
}

/// One more group adds its instances at the end, in their order, and nothing else changes.
pub proof fn law_groups_push(reservations: Seq<Reservation>, reservation: Reservation)
    ensures
        groups_resources(Seq::empty()).len() == 0,
        ({
            let front = groups_resources(reservations);
            let all = groups_resources(reservations.push(reservation));
            &&& forall|k: int| 0 <= k < front.len() ==> #[trigger] all[k] == front[k]
            &&& reservation.instances is None ==> all.len() == front.len()
            &&& reservation.instances matches Some(instances) ==> (all.len() == front.len()
                + instances@.len() && forall|j: int|
                0 <= j < instances@.len() ==> all[front.len() + j] == ResourceView::Instance(
                    (#[trigger] instances@[j]).instance_id->0@,
                ))
        }),
{
    law_group(reservation);
    assert(reservations.push(reservation).drop_last() =~= reservations);
    let front = groups_resources(reservations);
    let group = group_resources(reservation);
    assert(groups_resources(reservations.push(reservation)) == front + group);
    if let Some(instances) = reservation.instances {
        assert forall|j: int| 0 <= j < instances@.len() implies (front + group)[front.len() + j]
            == ResourceView::Instance((#[trigger] instances@[j]).instance_id->0@) by {
            assert((front + group)[front.len() + j] == group[j]);
        }
    }
}

/// Every instance of every group is listed.
pub proof fn law_every_instance_listed(reservations: Seq<Reservation>, i: int, j: int)
    requires
        0 <= i < reservations.len(),
        reservations[i].instances is Some,
        0 <= j < reservations[i].instances->0@.len(),
    ensures
        groups_resources(reservations).contains(
            ResourceView::Instance(reservations[i].instances->0@[j].instance_id->0@),
        ),
    decreases reservations.len(),
{
    let instance = ResourceView::Instance(reservations[i].instances->0@[j].instance_id->0@);
    let front = groups_resources(reservations.drop_last());
    let all = groups_resources(reservations);
    law_groups_push(reservations.drop_last(), reservations.last());
    assert(reservations.drop_last().push(reservations.last()) =~= reservations);
    if i == reservations.len() - 1 {
        assert(reservations.last().instances->0@[j] == reservations[i].instances->0@[j]);
        assert(all[front.len() + j] == instance);
    } else {
        law_every_instance_listed(reservations.drop_last(), i, j);
        let k = choose|k: int| 0 <= k < front.len() && front[k] == instance;
        assert(all[k] == instance);
    }
}

/// Nothing is listed but the instances of the groups.
pub proof fn law_only_instances_listed(reservations: Seq<Reservation>, r: ResourceView)
    requires
        groups_resources(reservations).contains(r),
    ensures
        exists|i: int, j: int|
            0 <= i < reservations.len() && reservations[i].instances is Some && 0 <= j
                < reservations[i].instances->0@.len() && r == ResourceView::Instance(
                (#[trigger] reservations[i].instances->0@[j]).instance_id->0@,
            ),
    decreases reservations.len(),
{
    let all = groups_resources(reservations);
    if reservations.len() > 0 {
        let front = groups_resources(reservations.drop_last());
        let last = reservations.len() - 1;
        law_groups_push(reservations.drop_last(), reservations.last());
        law_group(reservations.last());
        assert(reservations.drop_last().push(reservations.last()) =~= reservations);
        let k = choose|k: int| 0 <= k < all.len() && all[k] == r;
        if k < front.len() {
            assert(front[k] == r);
            law_only_instances_listed(reservations.drop_last(), r);
            let (i, j) = choose|i: int, j: int|
                0 <= i < reservations.drop_last().len()
                    && reservations.drop_last()[i].instances is Some && 0 <= j
                    < reservations.drop_last()[i].instances->0@.len() && r
                    == ResourceView::Instance(
                    (#[trigger] reservations.drop_last()[i].instances->0@[j]).instance_id->0@,
                );
            assert(reservations[i].instances->0@[j] == reservations.drop_last()[i].instances->0@[j]);
        } else {
            let j = k - front.len();
            assert(reservations[last].instances->0@[j] == reservations.last().instances->0@[j]);
            assert(all[front.len() + j] == r);
        }
    } else {
        law_groups_push(reservations, Reservation { instances: None });
        assert(reservations =~= Seq::empty());
    }
}

/// The listing is what its groups are, and empty where there are none; it is identified exactly if
/// every instance of every group has an id.
pub proof fn law_listing(listing: Option<Vec<Reservation>>)
    ensures
        listing matches Some(reservations) ==> instance_resources(listing) == groups_resources(
            reservations@,
        ),
        listing is None ==> instance_resources(listing).len() == 0,
        identified(listing) <==> (listing matches Some(reservations) ==> forall|i: int, j: int|
            0 <= i < reservations@.len() && reservations@[i].instances is Some && 0 <= j
                < reservations@[i].instances->0@.len() ==> (
            #[trigger] reservations@[i].instances->0@[j]).instance_id is Some),
{
    if let Some(reservations) = listing {
        if forall|i: int, j: int|
            0 <= i < reservations@.len() && reservations@[i].instances is Some && 0 <= j
                < reservations@[i].instances->0@.len() ==> (
            #[trigger] reservations@[i].instances->0@[j]).instance_id is Some {
            assert forall|i: int| 0 <= i < reservations@.len() implies group_identified(
                #[trigger] reservations@[i],
            ) by {
                if let Some(instances) = reservations@[i].instances {
                    assert forall|j: int| 0 <= j < instances@.len() implies (
                    #[trigger] instances@[j]).instance_id is Some by {
                        assert(reservations@[i].instances->0@[j].instance_id is Some);
                    }
                }
            }
        }
        if identified(listing) {
            assert forall|i: int, j: int|
                0 <= i < reservations@.len() && reservations@[i].instances is Some && 0 <= j
                    < reservations@[i].instances->0@.len() implies (
            #[trigger] reservations@[i].instances->0@[j]).instance_id is Some by {
                assert(group_identified(reservations@[i]));
            }
        }
    }
}

/// In which states the task takes which signals, and what it asks for before a listing comes: first
/// the permit, then the running instances. Nothing changes meanwhile.
pub proof fn law_ec2_asks(
    state: Ec2State,
    signal: Ec2Signal,
    before: Board,
    picks: Seq<int>,
    next: Ec2State,
    action: Ec2ActionView,
    after: Board,
)
    requires
        ec2_moved(signal, before, picks, next, action, after),
    ensures
        state.expects(signal) <==> match state {
            Ec2State::Idle => signal is Tick,
            Ec2State::Admitting => signal is Permit,
            Ec2State::Describing => signal is Instances,
        },
        signal is Tick ==> action is AcquirePermit && next is Admitting && after == before,
        signal is Permit ==> (action == (Ec2ActionView::DescribeInstances {
            name: "instance-state-name"@,
            value: "running"@,
        }) && next is Describing && after == before),
        signal is Instances ==> (action is Rest || action is OutOfPanels) && next is Idle,
{
}

/// What an action asks for is what its view says.
pub proof fn law_ec2_action(action: Ec2Action)
    ensures
        match action {
            Ec2Action::AcquirePermit => action@ is AcquirePermit,
            Ec2Action::DescribeInstances(filter) => action@ == (Ec2ActionView::DescribeInstances {
                name: filter.name@,
                value: filter.value@,
            }),
            Ec2Action::Rest(found) => action@ == Ec2ActionView::Rest(pairs_view(found@)),
            Ec2Action::OutOfPanels(found, missed) => action@ == Ec2ActionView::OutOfPanels(
                pairs_view(found@),
                missed@,
            ),
        },
{
}

} // verus!
