//! The task that looks for buckets of the region.

use crate::board::{board, discover, discovery, lacks_panel, law_look, law_shows, Board};
use crate::display::Display;
use crate::resource::{AWSResource, ResourceView};
use vstd::prelude::*;

verus! {

/// A bucket of a listing.
#[derive(Debug)]
pub struct Bucket {
    pub name: Option<String>,
}

/// The names of a list of buckets.
pub open spec fn bucket_names(buckets: Seq<Bucket>) -> Seq<Option<Seq<char>>> {
    buckets.map_values(
        |bucket: Bucket|
            match bucket.name {
                Some(name) => Some(name@),
                None => None,
            },
    )
}

/// Where the task stands.
#[derive(Debug)]
pub enum S3State {
    /// Waiting for the next tick.
    Idle,
    /// Waiting for the permit to work.
    Admitting,
    /// Waiting for the listing.
    Listing,
    /// About to look at the bucket at `next`.
    Ready { buckets: Vec<Bucket>, next: usize },
    /// Waiting for the location of the bucket at `next`.
    Locating { buckets: Vec<Bucket>, next: usize },
}

/// An [`S3State`], the buckets by their names.
#[verifier::ext_equal]
pub enum S3StateView {
    Idle,
    Admitting,
    Listing,
    Ready { names: Seq<Option<Seq<char>>>, next: int },
    Locating { names: Seq<Option<Seq<char>>>, next: int },
}

impl View for S3State {
    type V = S3StateView;

    open spec fn view(&self) -> S3StateView {
        match self {
            S3State::Idle => S3StateView::Idle,
            S3State::Admitting => S3StateView::Admitting,
            S3State::Listing => S3StateView::Listing,
            S3State::Ready { buckets, next } => S3StateView::Ready {
                names: bucket_names(buckets@),
                next: *next as int,
            },
            S3State::Locating { buckets, next } => S3StateView::Locating {
                names: bucket_names(buckets@),
                next: *next as int,
            },
        }
    }
}

/// What has happened outside.
#[derive(Debug)]
pub enum S3Signal {
    /// The interval is over.
    Tick,
    /// The permit was given.
    Permit,
    /// The listing came.
    Buckets(Option<Vec<Bucket>>),
    /// Nothing: the task goes on by itself.
    Proceed,
    /// The location of the bucket came.
    Location(Option<String>),
}

/// An [`S3Signal`], the buckets by their names and the location by its text.
pub enum S3SignalView {
    Tick,
    Permit,
    Buckets(Option<Seq<Option<Seq<char>>>>),
    Proceed,
    Location(Option<Seq<char>>),
}

impl View for S3Signal {
    type V = S3SignalView;

    open spec fn view(&self) -> S3SignalView {
        match self {
            S3Signal::Tick => S3SignalView::Tick,
            S3Signal::Permit => S3SignalView::Permit,
            S3Signal::Buckets(Some(buckets)) => S3SignalView::Buckets(
                Some(bucket_names(buckets@)),
            ),
            S3Signal::Buckets(None) => S3SignalView::Buckets(None),
            S3Signal::Proceed => S3SignalView::Proceed,
            S3Signal::Location(Some(location)) => S3SignalView::Location(Some(location@)),
            S3Signal::Location(None) => S3SignalView::Location(None),
        }
    }
}

/// What is to be done outside.
#[derive(Debug)]
pub enum S3Action {
    /// Take the permit to work.
    AcquirePermit,
    /// Ask for a listing of the buckets.
    ListBuckets,
    /// Ask for the location of the bucket with this name.
    GetBucketLocation(String),
    /// Nothing: go on at once. The panel was lit for the bucket that was looked at, if any was.
    Proceed(Option<u16>),
    /// Give the permit back and wait for the next tick.
    Rest,
    /// Give up: no panel is free for this bucket.
    OutOfPanels(AWSResource),
}

/// An [`S3Action`], the name and the resource by their views.
pub enum S3ActionView {
    AcquirePermit,
    ListBuckets,
    GetBucketLocation(Seq<char>),
    Proceed(Option<u16>),
    Rest,
    OutOfPanels(ResourceView),
}

impl View for S3Action {
    type V = S3ActionView;

    open spec fn view(&self) -> S3ActionView {
        match self {
            S3Action::AcquirePermit => S3ActionView::AcquirePermit,
            S3Action::ListBuckets => S3ActionView::ListBuckets,
            S3Action::GetBucketLocation(name) => S3ActionView::GetBucketLocation(name@),
            S3Action::Proceed(panel) => S3ActionView::Proceed(*panel),
            S3Action::Rest => S3ActionView::Rest,
            S3Action::OutOfPanels(bucket) => S3ActionView::OutOfPanels(bucket@),
        }
    }
}

impl S3StateView {
    /// The position is within the buckets, and at a bucket with a name while one is looked at.
    pub open spec fn wf(self) -> bool {
        match self {
            S3StateView::Ready { names, next } => 0 <= next <= names.len(),
            S3StateView::Locating { names, next } => 0 <= next < names.len() && names[next] is Some,
            _ => true,
        }
    }

    /// The task holds the permit to work.
    pub open spec fn holds_permit(self) -> bool {
        !(self is Idle) && !(self is Admitting)
    }

    /// The signal is one that the state waits for.
    pub open spec fn expects(self, signal: S3SignalView) -> bool {
        match self {
            S3StateView::Idle => signal is Tick,
            S3StateView::Admitting => signal is Permit,
            S3StateView::Listing => signal is Buckets,
            S3StateView::Ready { .. } => signal is Proceed,
            S3StateView::Locating { .. } => signal is Location,
        }
    }

    /// The bucket that is about to be looked at, if there is one, has a name.
    pub open spec fn name_known(self) -> bool {
        self matches S3StateView::Ready { names, next } ==> next < names.len()
            ==> names[next] is Some
    }

    /// The location that the signal brings, if it brings one, is known.
    pub open spec fn location_known(self, signal: S3SignalView) -> bool {
        self is Locating ==> signal->Location_0 is Some
    }
}

/// One step of the task leads to this: the next state, what is to be done, and the board.
pub open spec fn s3_moved(
    state: S3StateView,
    signal: S3SignalView,
    region: Seq<char>,
    before: Board,
    pick: int,
    next_state: S3StateView,
    action: S3ActionView,
    after: Board,
) -> bool {
    match state {
        S3StateView::Idle => {
            &&& next_state is Admitting
            &&& action is AcquirePermit
            &&& after == before
        },
        S3StateView::Admitting => {
            &&& next_state is Listing
            &&& action is ListBuckets
            &&& after == before
        },
        S3StateView::Listing => {
            &&& match signal->Buckets_0 {
                Some(names) => if names.len() > 0 {
                    &&& next_state == S3StateView::Ready { names, next: 0 }
                    &&& action == S3ActionView::Proceed(None)
                } else {
                    next_state is Idle && action is Rest
                },
                None => next_state is Idle && action is Rest,
            }
            &&& after == before
        },
        S3StateView::Ready { names, next } => {
            &&& if next < names.len() {
                &&& next_state == S3StateView::Locating { names, next }
                &&& action == S3ActionView::GetBucketLocation(names[next]->0)
            } else {
                next_state is Idle && action is Rest
            }
            &&& after == before
        },
        S3StateView::Locating { names, next } => {
            let bucket = ResourceView::Bucket(names[next]->0);
            if signal->Location_0->0 != region {
                &&& next_state == S3StateView::Ready { names, next: next + 1 }
                &&& action == S3ActionView::Proceed(None)
                &&& after == before
            } else if before.lacks_panel(bucket) {
                &&& next_state is Idle
                &&& action == S3ActionView::OutOfPanels(bucket)
                &&& after == before
            } else {
                &&& next_state == S3StateView::Ready { names, next: next + 1 }
                &&& action is Proceed
                &&& discovery(before, bucket, pick, after, action->Proceed_0)
            }
        },
    }
}

/// Takes the task one step on. After a tick and the permit it asks for the buckets, and for each
/// in turn for its location; a bucket of the region that is not shown yet gets a free panel,
/// picked by chance. Where none is free, the pass ends there.
pub fn monitor_s3(
    state: S3State,
    signal: S3Signal,
    region: &String,
    display: &mut Display,
    available: &mut Vec<u16>,
) -> (step: (S3State, S3Action))
    requires
        old(display).wf(),
        state@.wf(),
        state@.expects(signal@),
        state@.name_known(),
        state@.location_known(signal@),
    ensures
        final(display).wf(),
        step.0@.wf(),
        exists|pick: int|
            #[trigger] s3_moved(
                state@,
                signal@,
                region@,
                board(*old(display), *old(available)),
                pick,
                step.0@,
                step.1@,
                board(*final(display), *final(available)),
            ),
        state matches S3State::Ready { buckets, next } ==> next < buckets@.len() ==> (
        step.1 is GetBucketLocation && step.1->GetBucketLocation_0@ == buckets@[
            next as int
        ].name->0@),
        state matches S3State::Ready { buckets, next } ==> (step.1 is Rest <==> next
            == buckets@.len()),
        !(state is Locating) ==> (final(display)@ == old(display)@ && final(available)@ == old(
            available,
        )@),
        state matches S3State::Locating { buckets, next } ==> (signal->Location_0->0@ == region@
            && !(step.1 is OutOfPanels) ==> final(display)@.contains_value(
            ResourceView::Bucket(buckets@[next as int].name->0@),
        )),
{
    let ghost before = board(*display, *available);
    let ghost from = state@;
    let ghost by = signal@;
    let ghost mut chosen: int = 0;
    let step = match (state, signal) {
        (S3State::Idle, _) => (S3State::Admitting, S3Action::AcquirePermit),
        (S3State::Admitting, _) => (S3State::Listing, S3Action::ListBuckets),
        (S3State::Listing, S3Signal::Buckets(Some(buckets))) => {
            if buckets.len() > 0 {
                (S3State::Ready { buckets, next: 0 }, S3Action::Proceed(None))
            } else {
                (S3State::Idle, S3Action::Rest)
            }
        },
        (S3State::Listing, _) => (S3State::Idle, S3Action::Rest),
        (S3State::Ready { buckets, next }, _) => {
            if next < buckets.len() {
                let name = buckets[next].name.clone().unwrap();
                (S3State::Locating { buckets, next }, S3Action::GetBucketLocation(name))
            } else {
                (S3State::Idle, S3Action::Rest)
            }
        },
        (S3State::Locating { buckets, next }, S3Signal::Location(Some(location))) => {
            assert(next < buckets.len());
            if location != *region {
                (S3State::Ready { buckets, next: next + 1 }, S3Action::Proceed(None))
            } else {
                let bucket = AWSResource::Bucket(buckets[next].name.clone().unwrap());
                if lacks_panel(display, available, &bucket) {
                    (S3State::Idle, S3Action::OutOfPanels(bucket))
                } else {
                    let panel = discover(display, available, &bucket);
                    proof {
                        chosen = choose|pick: int|
                            #[trigger] discovery(
                                before,
                                bucket@,
                                pick,
                                board(*display, *available),
                                panel,
                            );
                    }
                    (S3State::Ready { buckets, next: next + 1 }, S3Action::Proceed(panel))
                }
            }
        },
        (S3State::Locating { .. }, _) => (S3State::Idle, S3Action::Rest),
    };
    assert(s3_moved(
        from,
        by,
        region@,
        before,
        chosen,
        step.0@,
        step.1@,
        board(*display, *available),
    ));
    step
}

/// The permit: the task asks for listings and locations, and lights panels, only while it holds the
/// permit, comes to hold it only by the signal that it was given, and gives it back when it rests or
/// gives up.
pub proof fn law_s3_permit(
    state: S3StateView,
    signal: S3SignalView,
    region: Seq<char>,
    before: Board,
    pick: int,
    next_state: S3StateView,
    action: S3ActionView,
    after: Board,
)
    requires
        state.expects(signal),
        s3_moved(state, signal, region, before, pick, next_state, action, after),
    ensures
        action is ListBuckets || action is GetBucketLocation || action is Proceed
            ==> next_state.holds_permit(),
        action is AcquirePermit || action is Rest || action is OutOfPanels
            ==> !next_state.holds_permit(),
        !state.holds_permit() && next_state.holds_permit() ==> signal is Permit,
        state.holds_permit() && !next_state.holds_permit() ==> action is Rest
            || action is OutOfPanels,
        after != before ==> state.holds_permit(),
{
}

/// The names of a list of buckets: as many as there are buckets, and each the name of the bucket in
/// its place.
pub proof fn law_bucket_names(buckets: Seq<Bucket>)
    ensures
        bucket_names(buckets).len() == buckets.len(),
        forall|i: int|
            0 <= i < buckets.len() ==> match buckets[i].name {
                Some(name) => #[trigger] bucket_names(buckets)[i] == Some(name@),
                None => bucket_names(buckets)[i] is None,
            },
{
}

/// In which states the task takes which signals. A bucket that is looked at has a name, and its
/// location is known.
pub proof fn law_s3_takes(state: S3State, signal: S3Signal)
    ensures
        state@.wf() && state@.expects(signal@) && state@.name_known() && state@.location_known(
            signal@,
        ) <==> match state {
            S3State::Idle => signal is Tick,
            S3State::Admitting => signal is Permit,
            S3State::Listing => signal is Buckets,
            S3State::Ready { buckets, next } => {
                &&& signal is Proceed
                &&& next <= buckets@.len()
                &&& next < buckets@.len() ==> buckets@[next as int].name is Some
            },
            S3State::Locating { buckets, next } => {
                &&& signal matches S3Signal::Location(location)
                &&& location is Some
                &&& next < buckets@.len()
                &&& buckets@[next as int].name is Some
            },
        },
{
    match state {
        S3State::Ready { buckets, next } => {
            law_bucket_names(buckets@);
            if next < buckets@.len() {
                assert(bucket_names(buckets@)[next as int] is Some <==> buckets@[
                    next as int
                ].name is Some);
            }
        },
        S3State::Locating { buckets, next } => {
            law_bucket_names(buckets@);
            if next < buckets@.len() {
                assert(bucket_names(buckets@)[next as int] is Some <==> buckets@[
                    next as int
                ].name is Some);
            }
        },
        _ => {},
    }
}

/// A pass begins with the permit and a request for all buckets. Nothing changes until the first
/// location comes. A listing without buckets ends the pass at once; else the first one is up.
pub proof fn law_s3_lists(
    state: S3State,
    signal: S3Signal,
    region: Seq<char>,
    before: Board,
    pick: int,
    next_state: S3StateView,
    action: S3ActionView,
    after: Board,
)
    requires
        state@.expects(signal@),
        s3_moved(state@, signal@, region, before, pick, next_state, action, after),
    ensures
        state is Idle ==> {
            action is AcquirePermit && next_state == S3State::Admitting@ && after == before
        },
        state is Admitting ==> {
            action is ListBuckets && next_state == S3State::Listing@ && after == before
        },
        state is Listing ==> after == before && match signal {
            S3Signal::Buckets(Some(buckets)) => if buckets@.len() > 0 {
                &&& action == S3ActionView::Proceed(None)
                &&& next_state == (S3State::Ready { buckets, next: 0 })@
            } else {
                action is Rest && next_state == S3State::Idle@
            },
            _ => action is Rest && next_state == S3State::Idle@,
        },
{
    if let S3Signal::Buckets(Some(buckets)) = signal {
        law_bucket_names(buckets@);
    }
}

/// The bucket that is up has its location asked for, by its own name, and the task rests only when
/// there is none left.
pub proof fn law_s3_asks(
    buckets: Vec<Bucket>,
    next: usize,
    region: Seq<char>,
    before: Board,
    pick: int,
    next_state: S3StateView,
    action: S3ActionView,
    after: Board,
)
    requires
        next < buckets@.len() ==> buckets@[next as int].name is Some,
        s3_moved(
            (S3State::Ready { buckets, next })@,
            S3SignalView::Proceed,
            region,
            before,
            pick,
            next_state,
            action,
            after,
        ),
    ensures
        after == before,
        next < buckets@.len() ==> action == S3ActionView::GetBucketLocation(
            buckets@[next as int].name->0@,
        ) && next_state == (S3State::Locating { buckets, next })@,
        next >= buckets@.len() ==> action is Rest && next_state == S3State::Idle@,
{
    law_bucket_names(buckets@);
    if next < buckets@.len() {
        assert(bucket_names(buckets@)[next as int] == Some(buckets@[next as int].name->0@));
    }
}

/// What a location leads to. A bucket elsewhere, and one that is shown, changes nothing. A bucket of
/// the region that is not shown takes one of the free panels, which then stands for it, and all
/// other lit panels are as they were; where none is free, the task gives up and nothing changes.
/// Unless the task gives up, the next bucket is up.
pub proof fn law_s3_located(
    buckets: Vec<Bucket>,
    next: usize,
    later: usize,
    location: String,
    region: Seq<char>,
    before: Board,
    pick: int,
    next_state: S3StateView,
    action: S3ActionView,
    after: Board,
)
    requires
        next < buckets@.len(),
        later == next + 1,
        buckets@[next as int].name is Some,
        s3_moved(
            (S3State::Locating { buckets, next })@,
            S3Signal::Location(Some(location))@,
            region,
            before,
            pick,
            next_state,
            action,
            after,
        ),
    ensures
        ({
            let bucket = ResourceView::Bucket(buckets@[next as int].name->0@);
            let shown = before.display.contains_value(bucket);
            &&& location@ != region || shown ==> {
                action == S3ActionView::Proceed(None) && after == before
            }
            &&& location@ == region && !shown && before.available.len() == 0 ==> {
                &&& action == S3ActionView::OutOfPanels(bucket)
                &&& next_state == S3State::Idle@
                &&& after == before
            }
            &&& location@ == region && !shown && before.available.len() > 0 ==> {
                &&& action matches S3ActionView::Proceed(Some(panel))
                &&& before.available.contains(panel)
                &&& after.display == before.display.insert(panel, bucket)
                &&& after.available.to_multiset().insert(panel) == before.available.to_multiset()
            }
            &&& action is Proceed ==> next_state == (S3State::Ready { buckets, next: later })@
        }),
{
    let bucket = ResourceView::Bucket(buckets@[next as int].name->0@);
    law_bucket_names(buckets@);
    assert(bucket_names(buckets@)[next as int] == Some(buckets@[next as int].name->0@));
    law_shows(before, bucket);
    if location@ == region && !before.lacks_panel(bucket) {
        law_look(before, bucket, pick, after, action->Proceed_0);
    }
}

/// A state is told by its view: the same kind of state, buckets of the same names and the same
/// position.
pub proof fn law_s3_state(a: S3State, b: S3State)
    requires
        a@ == b@,
    ensures
        a is Idle <==> b is Idle,
        a is Admitting <==> b is Admitting,
        a is Listing <==> b is Listing,
        a matches S3State::Ready { buckets, next } ==> (b is Ready && next == b->Ready_next
            && buckets@.len() == b->Ready_buckets@.len() && bucket_names(buckets@) == bucket_names(
            b->Ready_buckets@,
        )),
        a matches S3State::Locating { buckets, next } ==> (b is Locating && next
            == b->Locating_next && buckets@.len() == b->Locating_buckets@.len() && bucket_names(
            buckets@,
        ) == bucket_names(b->Locating_buckets@)),
{
    match (a, b) {
        (S3State::Ready { buckets, .. }, S3State::Ready { buckets: others, .. }) => {
            law_bucket_names(buckets@);
            law_bucket_names(others@);
        },
        (S3State::Locating { buckets, .. }, S3State::Locating { buckets: others, .. }) => {
            law_bucket_names(buckets@);
            law_bucket_names(others@);
        },
        _ => {},
    }
}

/// What an action asks for is what its view says.
pub proof fn law_s3_action(action: S3Action)
    ensures
        match action {
            S3Action::AcquirePermit => action@ is AcquirePermit,
            S3Action::ListBuckets => action@ is ListBuckets,
            S3Action::GetBucketLocation(name) => action@ == S3ActionView::GetBucketLocation(name@),
            S3Action::Proceed(panel) => action@ == S3ActionView::Proceed(panel),
            S3Action::Rest => action@ is Rest,
            S3Action::OutOfPanels(bucket) => action@ == S3ActionView::OutOfPanels(bucket@),
        },
{
}

} // verus!
