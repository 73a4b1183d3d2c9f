//! What a pass of a task through what its service lists leaves of the board.

use crate::board::{discovery, law_look, swept, Board};
use crate::dynamodb::{
    active, dynamodb_moved, DynamoDbActionView, DynamoDbSignalView, DynamoDbStateView,
    TableDescription,
};
use crate::ec2::{
    ec2_moved, instance_resources, law_every_instance_listed, law_listing, Ec2ActionView,
    Ec2Signal, Ec2State, Reservation,
};
use crate::laws::{grows, law_look_grows, law_place};
use crate::resource::ResourceView;
use crate::room::{
    lemma_newcomers_add, lemma_newcomers_push, lemma_newcomers_set, lemma_newcomers_take,
    lemma_placed, newcomers,
};
use crate::s3::{s3_moved, S3ActionView, S3SignalView, S3StateView};
use vstd::prelude::*;

verus! {

/// What looking at resources leaves of a board, apart from which panels were picked: nothing is
/// lost or doubled, every panel that was lit is as it was, the resources are shown and nothing else
/// that was not before, and as many panels were taken as there were newcomers.
pub open spec fn passed(before: Board, looked_at: Seq<ResourceView>, after: Board) -> bool {
    &&& grows(before, after)
    &&& after.display.values() == before.display.values().union(looked_at.to_set())
    &&& after.available.len() + newcomers(before.display.values(), looked_at)
        == before.available.len()
}

/// Nothing is shown that was not shown before or looked at.
pub open spec fn adds_only(before: Board, looked_at: Seq<ResourceView>, after: Board) -> bool {
    forall|r: ResourceView| #[trigger]
        after.shows(r) ==> before.shows(r) || looked_at.contains(r)
}

/// Looking at nothing leaves the board as it is.
pub proof fn law_passed_none(state: Board)
    ensures
        passed(state, Seq::empty(), state),
        adds_only(state, Seq::empty(), state),
{
    let none = Seq::<ResourceView>::empty();
    assert(state.display.values().union(none.to_set()) =~= state.display.values());
}

/// A look at one more resource, on a board in order.
pub proof fn law_passed_push(
    before: Board,
    looked_at: Seq<ResourceView>,
    middle: Board,
    resource: ResourceView,
    pick: int,
    after: Board,
    panel: Option<u16>,
)
    requires
        before.inv(),
        passed(before, looked_at, middle),
        discovery(middle, resource, pick, after, panel),
    ensures
        passed(before, looked_at.push(resource), after),
{
    let shown = before.display.values();
    law_look_grows(middle, resource, pick, after, panel);
    lemma_newcomers_push(shown, looked_at, resource);
    looked_at.lemma_push_to_set_commute(resource);
    assert(middle.shows(resource) <==> middle.display.values().contains(resource));
    if !middle.shows(resource) {
        law_place(middle, pick, resource);
        lemma_placed(middle, pick, resource);
    }
    assert(after.display.values() =~= shown.union(looked_at.push(resource).to_set()));
    assert forall|p: u16| #[trigger] before.display.contains_key(
        p,
    ) implies after.display.contains_key(p) && before.display[p] == after.display[p] by {
        assert(middle.display.contains_key(p));
    }
}

/// A look at one more resource, on any board.
pub proof fn law_adds_only_push(
    before: Board,
    looked_at: Seq<ResourceView>,
    middle: Board,
    resource: ResourceView,
    pick: int,
    after: Board,
    panel: Option<u16>,
)
    requires
        adds_only(before, looked_at, middle),
        discovery(middle, resource, pick, after, panel),
    ensures
        adds_only(before, looked_at.push(resource), after),
{
    let all = looked_at.push(resource);
    assert forall|r: ResourceView| #[trigger] after.shows(r) implies before.shows(r)
        || all.contains(r) by {
        let lit = choose|lit: u16|
            after.display.contains_key(lit) && #[trigger] after.display[lit] == r;
        if r == resource {
            assert(all[looked_at.len() as int] == r);
        } else {
            assert(middle.display.contains_key(lit) && middle.display[lit] == r);
            assert(middle.shows(r));
            if looked_at.contains(r) {
                let i = choose|i: int| 0 <= i < looked_at.len() && looked_at[i] == r;
                assert(all[i] == r);
            }
        }
    }
}

/// One pass after the other is one pass.
pub proof fn law_passed_on(
    before: Board,
    first: Seq<ResourceView>,
    middle: Board,
    second: Seq<ResourceView>,
    after: Board,
)
    requires
        before.inv(),
        passed(before, first, middle),
        passed(middle, second, after),
    ensures
        passed(before, first + second, after),
{
    let shown = before.display.values();
    lemma_newcomers_add(shown, first, second);
    assert((first + second).to_set() =~= first.to_set().union(second.to_set())) by {
        assert forall|r: ResourceView| #[trigger]
            first.to_set().union(second.to_set()).contains(r) implies (first
            + second).to_set().contains(r) by {
            if first.contains(r) {
                let i = choose|i: int| 0 <= i < first.len() && first[i] == r;
                assert((first + second)[i] == r);
            } else {
                let i = choose|i: int| 0 <= i < second.len() && second[i] == r;
                assert((first + second)[first.len() + i] == r);
            }
        }
    }
    assert(after.display.values() =~= shown.union((first + second).to_set()));
    assert forall|p: u16| #[trigger] before.display.contains_key(
        p,
    ) implies after.display.contains_key(p) && before.display[p] == after.display[p] by {
        assert(middle.display.contains_key(p));
    }
}

/// Looking at a list of resources keeps the board in order. Afterwards every resource of the list
/// is shown, nothing is shown that was not shown before or listed, every panel that was lit is as
/// it was, and as many panels were taken as there were newcomers.
pub proof fn law_discovery(before: Board, resources: Seq<ResourceView>, picks: Seq<int>)
    requires
        before.inv(),
        before.picks_fit(resources, picks),
    ensures
        passed(before, resources, before.discovered_all(resources, picks)),
        before.found_all(resources, picks).len() == newcomers(before.display.values(), resources),
    decreases resources.len(),
{
    if resources.len() == 0 {
        law_passed_none(before);
        assert(resources =~= Seq::empty());
    } else {
        let front = resources.drop_last();
        let last = resources.last();
        let middle = before.discovered_all(front, picks.drop_last());
        let after = before.discovered_all(resources, picks);
        let panel = if middle.shows(last) {
            None
        } else {
            Some(middle.available[picks.last()])
        };
        law_discovery(before, front, picks.drop_last());
        law_passed_push(before, front, middle, last, picks.last(), after, panel);
        assert(front.push(last) =~= resources);
    }
}

/// A board that shows all resources of a list stays as it is when they are looked at.
pub proof fn law_discovery_settled(state: Board, resources: Seq<ResourceView>, picks: Seq<int>)
    requires
        forall|i: int| 0 <= i < resources.len() ==> state.shows(#[trigger] resources[i]),
    ensures
        state.discovered_all(resources, picks) == state,
        state.found_all(resources, picks).len() == 0,
        state.room(resources),
    decreases resources.len(),
{
    if resources.len() > 0 {
        let front = resources.drop_last();
        assert forall|i: int| 0 <= i < front.len() implies state.shows(#[trigger] front[i]) by {
            assert(front[i] == resources[i]);
        }
        law_discovery_settled(state, front, picks.drop_last());
        assert(state.shows(resources[resources.len() - 1]));
        let rest = resources.drop_first();
        assert forall|i: int| 0 <= i < rest.len() implies state.shows(#[trigger] rest[i]) by {
            assert(rest[i] == resources[i + 1]);
        }
        law_discovery_settled(state, rest, picks);
        assert(state.shows(resources[0]));
    }
}

/// Looking at the same list a second time changes nothing.
pub proof fn law_discovery_repeated(
    before: Board,
    resources: Seq<ResourceView>,
    picks: Seq<int>,
    again: Seq<int>,
)
    requires
        before.inv(),
        before.picks_fit(resources, picks),
    ensures
        ({
            let after = before.discovered_all(resources, picks);
            &&& after.discovered_all(resources, again) == after
            &&& after.found_all(resources, again).len() == 0
        }),
{
    let after = before.discovered_all(resources, picks);
    law_discovery(before, resources, picks);
    assert forall|i: int| 0 <= i < resources.len() implies after.shows(#[trigger] resources[i]) by {
        assert(resources.to_set().contains(resources[i]));
        assert(after.display.values().contains(resources[i]));
    }
    law_discovery_settled(after, resources, again);
}

/// On a board in order it is settled beforehand whether the free panels are enough for a list: they
/// are if there are as many as newcomers, whatever panels are picked.
pub proof fn law_enough_panels(
    before: Board,
    resources: Seq<ResourceView>,
    picks: Seq<int>,
    after: Board,
    found: Seq<(u16, ResourceView)>,
    missed: Option<ResourceView>,
)
    requires
        before.inv(),
        swept(before, resources, picks, after, found, missed),
    ensures
        missed is None <==> newcomers(before.display.values(), resources)
            <= before.available.len(),
{
    let shown = before.display.values();
    let end = picks.len() as int;
    let front = resources.take(end);
    law_discovery(before, front, picks);
    if let Some(resource) = missed {
        lemma_newcomers_push(shown, front, resource);
        assert(front.push(resource) =~= resources.take(end + 1));
        lemma_newcomers_take(shown, resources, end + 1);
        assert(!shown.contains(resource) && !front.contains(resource)) by {
            assert(!after.display.values().contains(resource));
            assert(shown.union(front.to_set()) == after.display.values());
        }
    } else {
        assert(front =~= resources);
    }
}

/// Looking at a list of resources shows nothing that was not shown before or listed. This holds of
/// every board.
pub proof fn law_only_listed(before: Board, resources: Seq<ResourceView>, picks: Seq<int>)
    requires
        before.picks_fit(resources, picks),
    ensures
        adds_only(before, resources, before.discovered_all(resources, picks)),
    decreases resources.len(),
{
    if resources.len() > 0 {
        let front = resources.drop_last();
        let last = resources.last();
        let middle = before.discovered_all(front, picks.drop_last());
        let after = before.discovered_all(resources, picks);
        let panel = if middle.shows(last) {
            None
        } else {
            Some(middle.available[picks.last()])
        };
        law_only_listed(before, front, picks.drop_last());
        law_adds_only_push(before, front, middle, last, picks.last(), after, panel);
        assert(front.push(last) =~= resources);
    }
}

/// The resources of a list that are not passed over.
pub open spec fn chosen(resources: Seq<ResourceView>, wanted: Seq<bool>) -> Seq<ResourceView>
    decreases resources.len(),
{
    if resources.len() == 0 {
        Seq::empty()
    } else {
        let front = chosen(resources.drop_last(), wanted.drop_last());
        if wanted.last() {
            front.push(resources.last())
        } else {
            front
        }
    }
}

/// The resources that are not passed over are those that are wanted.
pub proof fn law_chosen(resources: Seq<ResourceView>, wanted: Seq<bool>, r: ResourceView)
    requires
        wanted.len() == resources.len(),
    ensures
        chosen(resources, wanted).contains(r) <==> exists|k: int|
            0 <= k < resources.len() && #[trigger] wanted[k] && resources[k] == r,
    decreases resources.len(),
{
    if resources.len() > 0 {
        let n = resources.len() - 1;
        let front = chosen(resources.drop_last(), wanted.drop_last());
        let all = chosen(resources, wanted);
        law_chosen(resources.drop_last(), wanted.drop_last(), r);
        if all.contains(r) {
            let i = choose|i: int| 0 <= i < all.len() && all[i] == r;
            if i < front.len() {
                assert(front[i] == r);
                let k = choose|k: int|
                    0 <= k < n && #[trigger] wanted.drop_last()[k] && resources.drop_last()[k] == r;
                assert(wanted[k] && resources[k] == r);
            } else {
                assert(wanted[n] && resources[n] == r);
            }
        }
        if exists|k: int| 0 <= k < resources.len() && #[trigger] wanted[k] && resources[k] == r {
            let k = choose|k: int|
                0 <= k < resources.len() && #[trigger] wanted[k] && resources[k] == r;
            if k < n {
                assert(wanted.drop_last()[k] && resources.drop_last()[k] == r);
                let i = choose|i: int| 0 <= i < front.len() && front[i] == r;
                assert(all[i] == r);
            } else {
                assert(all[front.len() as int] == r);
            }
        }
    }
}

/// Resources are looked at one at a time, from board to board, and those that are not wanted are
/// passed over.
pub open spec fn looks(
    resources: Seq<ResourceView>,
    wanted: Seq<bool>,
    boards: Seq<Board>,
    picks: Seq<int>,
    panels: Seq<Option<u16>>,
) -> bool {
    &&& wanted.len() == resources.len()
    &&& boards.len() == resources.len() + 1
    &&& forall|k: int|
        0 <= k < resources.len() ==> if #[trigger] wanted[k] {
            discovery(boards[k], resources[k], picks[k], boards[k + 1], panels[k])
        } else {
            boards[k + 1] == boards[k]
        }
}

/// Looking at resources one at a time, where some are passed over, keeps the board in order.
/// Afterwards every resource that was not passed over is shown, nothing else is that was not
/// before, every panel that was lit is as it was, and as many panels were taken as there were
/// newcomers among those that were not passed over.
pub proof fn law_sweep(
    resources: Seq<ResourceView>,
    wanted: Seq<bool>,
    boards: Seq<Board>,
    picks: Seq<int>,
    panels: Seq<Option<u16>>,
)
    requires
        boards[0].inv(),
        looks(resources, wanted, boards, picks, panels),
    ensures
        passed(boards[0], chosen(resources, wanted), boards.last()),
    decreases resources.len(),
{
    if resources.len() == 0 {
        law_passed_none(boards[0]);
    } else {
        let n = resources.len() - 1;
        let front = boards.drop_last();
        assert forall|k: int| 0 <= k < n implies if #[trigger] wanted.drop_last()[k] {
            discovery(front[k], resources.drop_last()[k], picks[k], front[k + 1], panels[k])
        } else {
            front[k + 1] == front[k]
        } by {
            assert(wanted.drop_last()[k] == wanted[k]);
        }
        law_sweep(resources.drop_last(), wanted.drop_last(), front, picks, panels);
        assert(wanted[n] == wanted.last());
        if wanted[n] {
            law_passed_push(
                boards[0],
                chosen(resources.drop_last(), wanted.drop_last()),
                boards[n],
                resources[n],
                picks[n],
                boards[n + 1],
                panels[n],
            );
        }
    }
}

/// What is not passed over of the beginning of a list is the beginning of what is not passed over.
proof fn lemma_chosen_take(resources: Seq<ResourceView>, wanted: Seq<bool>, end: int)
    requires
        wanted.len() == resources.len(),
        0 <= end <= resources.len(),
    ensures
        ({
            let part = chosen(resources.take(end), wanted.take(end));
            let all = chosen(resources, wanted);
            part.len() <= all.len() && part == all.take(part.len() as int)
        }),
    decreases resources.len() - end,
{
    let part = chosen(resources.take(end), wanted.take(end));
    let all = chosen(resources, wanted);
    if end == resources.len() {
        assert(resources.take(end) =~= resources);
        assert(wanted.take(end) =~= wanted);
        assert(part =~= all.take(part.len() as int));
    } else {
        lemma_chosen_take(resources, wanted, end + 1);
        assert(resources.take(end + 1).drop_last() =~= resources.take(end));
        assert(wanted.take(end + 1).drop_last() =~= wanted.take(end));
        assert(part =~= all.take(part.len() as int));
    }
}

/// Where there are as many free panels as newcomers among the resources that are not passed over,
/// a panel is free for each of them when its turn comes, whatever panels are picked before.
pub proof fn law_sweep_enough(
    resources: Seq<ResourceView>,
    wanted: Seq<bool>,
    boards: Seq<Board>,
    picks: Seq<int>,
    panels: Seq<Option<u16>>,
    next: int,
)
    requires
        boards[0].inv(),
        wanted.len() == resources.len(),
        0 <= next < resources.len(),
        wanted[next],
        looks(resources.take(next), wanted.take(next), boards, picks, panels),
        newcomers(boards[0].display.values(), chosen(resources, wanted))
            <= boards[0].available.len(),
    ensures
        boards[next].shows(resources[next]) || boards[next].available.len() > 0,
{
    let shown = boards[0].display.values();
    let part = chosen(resources.take(next), wanted.take(next));
    let all = chosen(resources, wanted);
    law_sweep(resources.take(next), wanted.take(next), boards, picks, panels);
    if boards[next].lacks_panel(resources[next]) {
        assert(resources.take(next + 1).drop_last() =~= resources.take(next));
        assert(wanted.take(next + 1).drop_last() =~= wanted.take(next));
        assert(chosen(resources.take(next + 1), wanted.take(next + 1)) == part.push(
            resources[next],
        ));
        lemma_chosen_take(resources, wanted, next + 1);
        lemma_newcomers_take(shown, all, part.len() as int + 1);
        lemma_newcomers_push(shown, part, resources[next]);
        assert(!boards[next].display.values().contains(resources[next]));
        assert(boards.last() == boards[next]);
    }
}

/// The listed buckets as resources.
pub open spec fn bucket_resources(names: Seq<Option<Seq<char>>>) -> Seq<ResourceView> {
    names.map_values(|name: Option<Seq<char>>| ResourceView::Bucket(name->0))
}

/// Which of the locations are the region.
pub open spec fn in_region(locations: Seq<Seq<char>>, region: Seq<char>) -> Seq<bool> {
    locations.map_values(|location: Seq<char>| location == region)
}

/// The buckets of the region, where `locations` are the locations of the first of the listed ones.
pub open spec fn region_buckets(
    names: Seq<Option<Seq<char>>>,
    locations: Seq<Seq<char>>,
    region: Seq<char>,
) -> Seq<ResourceView> {
    chosen(
        bucket_resources(names.take(locations.len() as int)),
        in_region(locations, region),
    )
}

/// The listed tables as resources.
pub open spec fn table_resources(names: Seq<Seq<char>>) -> Seq<ResourceView> {
    names.map_values(|name: Seq<char>| ResourceView::Table(name))
}

/// Which of the tables are active.
pub open spec fn are_active(tables: Seq<Option<TableDescription>>) -> Seq<bool> {
    tables.map_values(|table: Option<TableDescription>| active(table))
}

/// The active tables, where `tables` are the descriptions of the first of the listed ones.
pub open spec fn active_tables(
    names: Seq<Seq<char>>,
    tables: Seq<Option<TableDescription>>,
) -> Seq<ResourceView> {
    chosen(table_resources(names.take(tables.len() as int)), are_active(tables))
}

/// The steps of a pass through the first listed buckets, one for each location, with nothing else
/// done to the board meanwhile.
pub open spec fn s3_looks(
    names: Seq<Option<Seq<char>>>,
    locations: Seq<Seq<char>>,
    region: Seq<char>,
    boards: Seq<Board>,
    picks: Seq<int>,
    panels: Seq<Option<u16>>,
) -> bool {
    &&& locations.len() <= names.len()
    &&& boards.len() == locations.len() + 1
    &&& forall|k: int|
        #![trigger locations[k]]
        0 <= k < locations.len() ==> s3_moved(
            S3StateView::Locating { names, next: k },
            S3SignalView::Location(Some(locations[k])),
            region,
            boards[k],
            picks[k],
            S3StateView::Ready { names, next: k + 1 },
            S3ActionView::Proceed(panels[k]),
            boards[k + 1],
        )
}

/// A pass through the listed buckets, as far as the locations came, lights up those of the region,
/// and as many panels are taken as buckets of the region are new.
pub proof fn law_s3_pass(
    names: Seq<Option<Seq<char>>>,
    locations: Seq<Seq<char>>,
    region: Seq<char>,
    boards: Seq<Board>,
    picks: Seq<int>,
    panels: Seq<Option<u16>>,
)
    requires
        boards[0].inv(),
        s3_looks(names, locations, region, boards, picks, panels),
    ensures
        looks(
            bucket_resources(names.take(locations.len() as int)),
            in_region(locations, region),
            boards,
            picks,
            panels,
        ),
        passed(boards[0], region_buckets(names, locations, region), boards.last()),
{
    let resources = bucket_resources(names.take(locations.len() as int));
    let wanted = in_region(locations, region);
    assert forall|k: int| 0 <= k < resources.len() implies if #[trigger] wanted[k] {
        discovery(boards[k], resources[k], picks[k], boards[k + 1], panels[k])
    } else {
        boards[k + 1] == boards[k]
    } by {
        assert(wanted[k] == (locations[k] == region));
    }
    law_sweep(resources, wanted, boards, picks, panels);
}

/// The bucket task gives up at a bucket exactly where the buckets of the region that are new, up to
/// this one, are more than the panels that were free when the pass began.
pub proof fn law_s3_enough(
    names: Seq<Option<Seq<char>>>,
    locations: Seq<Seq<char>>,
    region: Seq<char>,
    boards: Seq<Board>,
    picks: Seq<int>,
    panels: Seq<Option<u16>>,
    location: Seq<char>,
    pick: int,
    next_state: S3StateView,
    action: S3ActionView,
    after: Board,
)
    requires
        boards[0].inv(),
        locations.len() < names.len(),
        s3_looks(names, locations, region, boards, picks, panels),
        s3_moved(
            S3StateView::Locating { names, next: locations.len() as int },
            S3SignalView::Location(Some(location)),
            region,
            boards.last(),
            pick,
            next_state,
            action,
            after,
        ),
    ensures
        action is OutOfPanels <==> newcomers(
            boards[0].display.values(),
            region_buckets(names, locations.push(location), region),
        ) > boards[0].available.len(),
{
    let bucket = ResourceView::Bucket(names[locations.len() as int]->0);
    let part = region_buckets(names, locations, region);
    law_s3_pass(names, locations, region, boards, picks, panels);
    lemma_region_buckets_push(names, locations, location, region);
    lemma_newcomers_push(boards[0].display.values(), part, bucket);
    assert(boards.last().shows(bucket) <==> boards.last().display.values().contains(bucket));
}

/// One more location.
pub proof fn lemma_region_buckets_push(
    names: Seq<Option<Seq<char>>>,
    locations: Seq<Seq<char>>,
    location: Seq<char>,
    region: Seq<char>,
)
    requires
        locations.len() < names.len(),
    ensures
        region_buckets(names, locations.push(location), region) == if location == region {
            region_buckets(names, locations, region).push(
                ResourceView::Bucket(names[locations.len() as int]->0),
            )
        } else {
            region_buckets(names, locations, region)
        },
{
    let next = locations.len() as int;
    let told = locations.push(location);
    assert(bucket_resources(names.take(next + 1)).drop_last() =~= bucket_resources(
        names.take(next),
    ));
    assert(in_region(told, region).drop_last() =~= in_region(locations, region));
    assert(in_region(told, region).last() == (location == region));
}

/// The steps of a pass through the first listed tables, one for each description, with nothing else
/// done to the board meanwhile.
pub open spec fn dynamodb_looks(
    names: Seq<Seq<char>>,
    tables: Seq<Option<TableDescription>>,
    boards: Seq<Board>,
    picks: Seq<int>,
    panels: Seq<Option<u16>>,
) -> bool {
    &&& tables.len() <= names.len()
    &&& boards.len() == tables.len() + 1
    &&& forall|k: int|
        #![trigger tables[k]]
        0 <= k < tables.len() ==> dynamodb_moved(
            DynamoDbStateView::Describing { names, next: k },
            DynamoDbSignalView::Description(tables[k]),
            boards[k],
            picks[k],
            DynamoDbStateView::Ready { names, next: k + 1 },
            DynamoDbActionView::Proceed(panels[k]),
            boards[k + 1],
        )
}

/// A pass through the listed tables, as far as the descriptions came, lights up the active ones, and
/// as many panels are taken as active tables are new.
pub proof fn law_dynamodb_pass(
    names: Seq<Seq<char>>,
    tables: Seq<Option<TableDescription>>,
    boards: Seq<Board>,
    picks: Seq<int>,
    panels: Seq<Option<u16>>,
)
    requires
        boards[0].inv(),
        dynamodb_looks(names, tables, boards, picks, panels),
    ensures
        looks(
            table_resources(names.take(tables.len() as int)),
            are_active(tables),
            boards,
            picks,
            panels,
        ),
        passed(boards[0], active_tables(names, tables), boards.last()),
{
    let resources = table_resources(names.take(tables.len() as int));
    let wanted = are_active(tables);
    assert forall|k: int| 0 <= k < resources.len() implies if #[trigger] wanted[k] {
        discovery(boards[k], resources[k], picks[k], boards[k + 1], panels[k])
    } else {
        boards[k + 1] == boards[k]
    } by {
        assert(wanted[k] == active(tables[k]));
    }
    law_sweep(resources, wanted, boards, picks, panels);
}

/// The table task gives up at a table exactly where the active tables that are new, up to this one,
/// are more than the panels that were free when the pass began.
pub proof fn law_dynamodb_enough(
    names: Seq<Seq<char>>,
    tables: Seq<Option<TableDescription>>,
    boards: Seq<Board>,
    picks: Seq<int>,
    panels: Seq<Option<u16>>,
    table: Option<TableDescription>,
    pick: int,
    next_state: DynamoDbStateView,
    action: DynamoDbActionView,
    after: Board,
)
    requires
        boards[0].inv(),
        tables.len() < names.len(),
        dynamodb_looks(names, tables, boards, picks, panels),
        dynamodb_moved(
            DynamoDbStateView::Describing { names, next: tables.len() as int },
            DynamoDbSignalView::Description(table),
            boards.last(),
            pick,
            next_state,
            action,
            after,
        ),
    ensures
        action is OutOfPanels <==> newcomers(
            boards[0].display.values(),
            active_tables(names, tables.push(table)),
        ) > boards[0].available.len(),
{
    let resource = ResourceView::Table(names[tables.len() as int]);
    let part = active_tables(names, tables);
    law_dynamodb_pass(names, tables, boards, picks, panels);
    lemma_active_tables_push(names, tables, table);
    lemma_newcomers_push(boards[0].display.values(), part, resource);
    assert(boards.last().shows(resource) <==> boards.last().display.values().contains(resource));
}

/// One more description.
pub proof fn lemma_active_tables_push(
    names: Seq<Seq<char>>,
    tables: Seq<Option<TableDescription>>,
    table: Option<TableDescription>,
)
    requires
        tables.len() < names.len(),
    ensures
        active_tables(names, tables.push(table)) == if active(table) {
            active_tables(names, tables).push(ResourceView::Table(names[tables.len() as int]))
        } else {
            active_tables(names, tables)
        },
{
    let next = tables.len() as int;
    let told = tables.push(table);
    assert(table_resources(names.take(next + 1)).drop_last() =~= table_resources(names.take(next)));
    assert(are_active(told).drop_last() =~= are_active(tables));
    assert(are_active(told).last() == active(table));
}

/// A pass through the running instances that does not give up lights them up, and as many panels are
/// taken as instances are new. It gives up exactly where the free panels are fewer than these.
pub proof fn law_ec2_pass(
    listing: Option<Vec<Reservation>>,
    before: Board,
    picks: Seq<int>,
    next: Ec2State,
    action: Ec2ActionView,
    after: Board,
)
    requires
        before.inv(),
        ec2_moved(Ec2Signal::Instances(listing), before, picks, next, action, after),
    ensures
        grows(before, after),
        action is Rest <==> newcomers(before.display.values(), instance_resources(listing))
            <= before.available.len(),
        action is Rest ==> passed(before, instance_resources(listing), after),
{
    let resources = instance_resources(listing);
    let front = resources.take(picks.len() as int);
    law_discovery(before, front, picks);
    match action {
        Ec2ActionView::Rest(found) => {
            law_enough_panels(before, resources, picks, after, found, None);
            assert(front =~= resources);
        },
        Ec2ActionView::OutOfPanels(found, missed) => {
            law_enough_panels(before, resources, picks, after, found, Some(missed));
        },
        _ => {},
    }
}

/// A step of the instance task at most lights panels.
pub proof fn law_ec2_grows(
    signal: Ec2Signal,
    before: Board,
    picks: Seq<int>,
    next: Ec2State,
    action: Ec2ActionView,
    after: Board,
)
    requires
        ec2_moved(signal, before, picks, next, action, after),
    ensures
        grows(before, after),
{
    if before.inv() {
        if let Ec2Signal::Instances(listing) = signal {
            law_discovery(before, instance_resources(listing).take(picks.len() as int), picks);
        }
    }
}

/// A step of the bucket task at most lights panels.
pub proof fn law_s3_grows(
    state: S3StateView,
    signal: S3SignalView,
    region: Seq<char>,
    before: Board,
    pick: int,
    next_state: S3StateView,
    action: S3ActionView,
    after: Board,
)
    requires
        s3_moved(state, signal, region, before, pick, next_state, action, after),
    ensures
        grows(before, after),
{
    if let S3StateView::Locating { names, next } = state {
        let bucket = ResourceView::Bucket(names[next]->0);
        if signal->Location_0->0 == region && !before.lacks_panel(bucket) {
            law_look_grows(before, bucket, pick, after, action->Proceed_0);
        }
    }
}

/// A step of the table task at most lights panels.
pub proof fn law_dynamodb_grows(
    state: DynamoDbStateView,
    signal: DynamoDbSignalView,
    before: Board,
    pick: int,
    next_state: DynamoDbStateView,
    action: DynamoDbActionView,
    after: Board,
)
    requires
        dynamodb_moved(state, signal, before, pick, next_state, action, after),
    ensures
        grows(before, after),
{
    if let DynamoDbStateView::Describing { names, next } = state {
        let table = ResourceView::Table(names[next]);
        if active(signal->Description_0) && !before.lacks_panel(table) {
            law_look_grows(before, table, pick, after, action->Proceed_0);
        }
    }
}

/// What a service answers in one pass of a task: the listing, and for each listed bucket or table
/// its location or description.
pub enum Answers {
    Instances(Option<Vec<Reservation>>),
    Buckets { buckets: Seq<Option<Seq<char>>>, locations: Seq<Seq<char>>, region: Seq<char> },
    Tables { tables: Seq<Seq<char>>, descriptions: Seq<Option<TableDescription>> },
}

impl Answers {
    /// The resources that the pass looks at.
    pub open spec fn looked_at(self) -> Seq<ResourceView> {
        match self {
            Answers::Instances(listing) => instance_resources(listing),
            Answers::Buckets { buckets: names, locations, region } => region_buckets(
                names,
                locations,
                region,
            ),
            Answers::Tables { tables: names, descriptions: tables } => active_tables(names, tables),
        }
    }

    /// The pass with these answers, to its end and with nothing else done to the board meanwhile,
    /// can lead from the one board to the other.
    pub open spec fn leads(self, before: Board, after: Board) -> bool {
        match self {
            Answers::Instances(listing) => exists|
                picks: Seq<int>,
                next: Ec2State,
                action: Ec2ActionView,
            | #[trigger]
                ec2_moved(Ec2Signal::Instances(listing), before, picks, next, action, after)
                    && action is Rest,
            Answers::Buckets { buckets: names, locations, region } => {
                &&& locations.len() == names.len()
                &&& exists|boards: Seq<Board>, picks: Seq<int>, panels: Seq<Option<u16>>| #[trigger]
                    s3_looks(names, locations, region, boards, picks, panels) && boards[0] == before
                        && boards.last() == after
            },
            Answers::Tables { tables: names, descriptions: tables } => {
                &&& tables.len() == names.len()
                &&& exists|boards: Seq<Board>, picks: Seq<int>, panels: Seq<Option<u16>>| #[trigger]
                    dynamodb_looks(names, tables, boards, picks, panels) && boards[0] == before
                        && boards.last() == after
            },
        }
    }
}

/// What a pass of any of the three tasks leaves, on a board in order.
pub proof fn law_pass(answers: Answers, before: Board, after: Board)
    requires
        before.inv(),
        answers.leads(before, after),
    ensures
        passed(before, answers.looked_at(), after),
{
    match answers {
        Answers::Instances(listing) => {
            let (picks, next, action) = choose|
                picks: Seq<int>,
                next: Ec2State,
                action: Ec2ActionView,
            | #[trigger]
                ec2_moved(Ec2Signal::Instances(listing), before, picks, next, action, after)
                    && action is Rest;
            law_ec2_pass(listing, before, picks, next, action, after);
        },
        Answers::Buckets { buckets: names, locations, region } => {
            let (boards, picks, panels) = choose|
                boards: Seq<Board>,
                picks: Seq<int>,
                panels: Seq<Option<u16>>,
            | #[trigger]
                s3_looks(names, locations, region, boards, picks, panels) && boards[0] == before
                    && boards.last() == after;
            law_s3_pass(names, locations, region, boards, picks, panels);
        },
        Answers::Tables { tables: names, descriptions: tables } => {
            let (boards, picks, panels) = choose|
                boards: Seq<Board>,
                picks: Seq<int>,
                panels: Seq<Option<u16>>,
            | #[trigger]
                dynamodb_looks(names, tables, boards, picks, panels) && boards[0] == before
                    && boards.last() == after;
            law_dynamodb_pass(names, tables, boards, picks, panels);
        },
    }
}

/// Passes one after the other, from board to board: the one at `k` looks at the resources at `k`.
pub open spec fn passes(lists: Seq<Seq<ResourceView>>, boards: Seq<Board>) -> bool {
    &&& boards.len() == lists.len() + 1
    &&& forall|k: int| 0 <= k < lists.len() ==> passed(boards[k], #[trigger] lists[k], boards[k + 1])
}

/// The resources that the passes look at, pass by pass.
pub open spec fn all_looked_at(lists: Seq<Seq<ResourceView>>) -> Seq<ResourceView>
    decreases lists.len(),
{
    if lists.len() == 0 {
        Seq::empty()
    } else {
        all_looked_at(lists.drop_last()) + lists.last()
    }
}

/// Passes one after the other leave what one pass through all that they look at leaves.
pub proof fn law_passes(lists: Seq<Seq<ResourceView>>, boards: Seq<Board>)
    requires
        boards[0].inv(),
        passes(lists, boards),
    ensures
        passed(boards[0], all_looked_at(lists), boards.last()),
    decreases lists.len(),
{
    if lists.len() == 0 {
        law_passed_none(boards[0]);
    } else {
        let n = lists.len() - 1;
        let front = lists.drop_last();
        assert forall|k: int| 0 <= k < n implies passed(
            boards.drop_last()[k],
            #[trigger] front[k],
            boards.drop_last()[k + 1],
        ) by {
            assert(passed(boards[k], lists[k], boards[k + 1]));
        }
        law_passes(front, boards.drop_last());
        assert(passed(boards[n], lists[n], boards[n + 1]));
        law_passed_on(boards[0], all_looked_at(front), boards[n], lists[n], boards[n + 1]);
    }
}

/// A resource is looked at by the passes if it is looked at by one of them.
proof fn lemma_all_looked_at(lists: Seq<Seq<ResourceView>>, r: ResourceView)
    ensures
        all_looked_at(lists).contains(r) <==> exists|list: Seq<ResourceView>| #[trigger]
            lists.contains(list) && list.contains(r),
    decreases lists.len(),
{
    if lists.len() > 0 {
        let front = lists.drop_last();
        let last = lists.last();
        let before = all_looked_at(front);
        let all = all_looked_at(lists);
        lemma_all_looked_at(front, r);
        assert(lists[lists.len() - 1] == last);
        if all.contains(r) {
            let i = choose|i: int| 0 <= i < all.len() && all[i] == r;
            if i < before.len() {
                assert(before[i] == r);
                let list = choose|list: Seq<ResourceView>| #[trigger]
                    front.contains(list) && list.contains(r);
                let k = choose|k: int| 0 <= k < front.len() && front[k] == list;
                assert(lists[k] == list);
                assert(lists.contains(list) && list.contains(r));
            } else {
                assert(last[i - before.len()] == r);
                assert(lists.contains(last) && last.contains(r));
            }
        }
        if exists|list: Seq<ResourceView>| #[trigger] lists.contains(list) && list.contains(r) {
            let list = choose|list: Seq<ResourceView>| #[trigger]
                lists.contains(list) && list.contains(r);
            let k = choose|k: int| 0 <= k < lists.len() && lists[k] == list;
            if k < front.len() {
                assert(front[k] == list);
                assert(front.contains(list));
                let i = choose|i: int| 0 <= i < before.len() && before[i] == r;
                assert(all[i] == r);
            } else {
                let i = choose|i: int| 0 <= i < last.len() && last[i] == r;
                assert(all[before.len() + i] == r);
            }
        }
    } else if exists|list: Seq<ResourceView>| #[trigger] lists.contains(list) && list.contains(r) {
        let list = choose|list: Seq<ResourceView>| #[trigger]
            lists.contains(list) && list.contains(r);
        assert(lists.contains(list));
    }
}

/// Both have the same members, maybe in another order.
pub open spec fn same_members<A>(one: Seq<A>, other: Seq<A>) -> bool {
    forall|member: A| one.contains(member) <==> #[trigger] other.contains(member)
}

/// What is in another order has the same members.
proof fn lemma_reordered<A>(one: Seq<A>, other: Seq<A>)
    requires
        other.to_multiset() == one.to_multiset(),
    ensures
        same_members(one, other),
{
    assert forall|member: A| one.contains(member) <==> #[trigger] other.contains(member) by {
        vstd::seq_lib::to_multiset_contains(one, member);
        vstd::seq_lib::to_multiset_contains(other, member);
    }
}

/// Passes through the same lists look at the same resources, whatever their order.
proof fn lemma_same_resources(lists: Seq<Seq<ResourceView>>, reordered: Seq<Seq<ResourceView>>)
    requires
        same_members(lists, reordered),
    ensures
        all_looked_at(reordered).to_set() == all_looked_at(lists).to_set(),
{
    assert forall|r: ResourceView| all_looked_at(reordered).contains(r) <==> #[trigger]
        all_looked_at(lists).contains(r) by {
        lemma_all_looked_at(lists, r);
        lemma_all_looked_at(reordered, r);
        if all_looked_at(lists).contains(r) {
            let list = choose|list: Seq<ResourceView>| #[trigger]
                lists.contains(list) && list.contains(r);
            assert(reordered.contains(list));
        }
    }
    assert(all_looked_at(reordered).to_set() =~= all_looked_at(lists).to_set());
}

/// The order of passes does not matter. From one board in order, passes that look at the same lists
/// lead to the same shown resources and to the same number of free panels, in whatever order they
/// run; the panels are the same too, and only which of them stands for which resource may differ.
pub proof fn law_any_order(
    lists: Seq<Seq<ResourceView>>,
    boards: Seq<Board>,
    reordered: Seq<Seq<ResourceView>>,
    others: Seq<Board>,
)
    requires
        boards[0].inv(),
        passes(lists, boards),
        others[0] == boards[0],
        passes(reordered, others),
        same_members(lists, reordered),
    ensures
        others.last().display.values() == boards.last().display.values(),
        others.last().available.len() == boards.last().available.len(),
        others.last().panels() == boards.last().panels(),
        others.last().inv(),
        boards.last().inv(),
{
    let shown = boards[0].display.values();
    law_passes(lists, boards);
    law_passes(reordered, others);
    lemma_same_resources(lists, reordered);
    lemma_newcomers_set(shown, all_looked_at(lists));
    lemma_newcomers_set(shown, all_looked_at(reordered));
}

/// Where panels suffice, they suffice in any order: if there are as many free panels as newcomers
/// among all that the passes look at, then whatever passes ran before, there are as many as newcomers
/// among what the next one looks at.
pub proof fn law_enough_in_any_order(
    lists: Seq<Seq<ResourceView>>,
    reordered: Seq<Seq<ResourceView>>,
    boards: Seq<Board>,
    next: int,
)
    requires
        boards[0].inv(),
        0 <= next < reordered.len(),
        passes(reordered.take(next), boards),
        same_members(lists, reordered),
        newcomers(boards[0].display.values(), all_looked_at(lists)) <= boards[0].available.len(),
    ensures
        newcomers(boards[next].display.values(), reordered[next]) <= boards[next].available.len(),
{
    let shown = boards[0].display.values();
    let part = all_looked_at(reordered.take(next));
    let second = reordered[next];
    law_passes(reordered.take(next), boards);
    lemma_same_resources(lists, reordered);
    lemma_newcomers_set(shown, all_looked_at(lists));
    lemma_newcomers_set(shown, all_looked_at(reordered));
    assert(reordered.take(next + 1).drop_last() =~= reordered.take(next));
    assert(all_looked_at(reordered.take(next + 1)) == part + second);
    lemma_newcomers_add(shown, part, second);
    lemma_all_looked_at_take(reordered, next + 1);
    lemma_newcomers_take(shown, all_looked_at(reordered), (part + second).len() as int);
    assert(boards.last() == boards[next]);
}

/// What the first passes look at is the beginning of what all passes look at.
proof fn lemma_all_looked_at_take(lists: Seq<Seq<ResourceView>>, end: int)
    requires
        0 <= end <= lists.len(),
    ensures
        ({
            let part = all_looked_at(lists.take(end));
            let all = all_looked_at(lists);
            part.len() <= all.len() && part == all.take(part.len() as int)
        }),
    decreases lists.len() - end,
{
    let part = all_looked_at(lists.take(end));
    let all = all_looked_at(lists);
    if end == lists.len() {
        assert(lists.take(end) =~= lists);
    } else {
        lemma_all_looked_at_take(lists, end + 1);
        assert(lists.take(end + 1).drop_last() =~= lists.take(end));
    }
    assert(part =~= all.take(part.len() as int));
}

/// The lists that passes with these answers look at.
pub open spec fn looked_at(answers: Seq<Answers>) -> Seq<Seq<ResourceView>> {
    answers.map_values(|pass: Answers| pass.looked_at())
}

/// The same answers in another order lead to the same: from one board in order, passes of the three
/// tasks that come to their ends show the same resources and leave the same number of free panels,
/// whichever task runs first, second or last.
pub proof fn law_answers_in_any_order(
    answers: Seq<Answers>,
    boards: Seq<Board>,
    reordered: Seq<Answers>,
    others: Seq<Board>,
)
    requires
        boards[0].inv(),
        boards.len() == answers.len() + 1,
        forall|k: int|
            0 <= k < answers.len() ==> (#[trigger] answers[k]).leads(boards[k], boards[k + 1]),
        others[0] == boards[0],
        others.len() == reordered.len() + 1,
        forall|k: int|
            0 <= k < reordered.len() ==> (#[trigger] reordered[k]).leads(others[k], others[k + 1]),
        reordered.to_multiset() == answers.to_multiset(),
    ensures
        others.last().display.values() == boards.last().display.values(),
        others.last().available.len() == boards.last().available.len(),
        others.last().panels() == boards.last().panels(),
{
    lemma_answers_pass(answers, boards);
    lemma_answers_pass(reordered, others);
    lemma_reordered(answers, reordered);
    let one = looked_at(answers);
    let other = looked_at(reordered);
    assert forall|list: Seq<ResourceView>| one.contains(list) <==> #[trigger] other.contains(
        list,
    ) by {
        if one.contains(list) {
            let i = choose|i: int| 0 <= i < one.len() && one[i] == list;
            assert(answers.contains(answers[i]));
            assert(reordered.contains(answers[i]));
            let k = choose|k: int| 0 <= k < reordered.len() && reordered[k] == answers[i];
            assert(other[k] == list);
        }
        if other.contains(list) {
            let i = choose|i: int| 0 <= i < other.len() && other[i] == list;
            assert(reordered.contains(reordered[i]));
            assert(answers.contains(reordered[i]));
            let k = choose|k: int| 0 <= k < answers.len() && answers[k] == reordered[i];
            assert(one[k] == list);
        }
    }
    law_any_order(one, boards, other, others);
}

/// Passes with answers are passes through what they look at.
proof fn lemma_answers_pass(answers: Seq<Answers>, boards: Seq<Board>)
    requires
        boards[0].inv(),
        boards.len() == answers.len() + 1,
        forall|k: int|
            0 <= k < answers.len() ==> (#[trigger] answers[k]).leads(boards[k], boards[k + 1]),
    ensures
        passes(looked_at(answers), boards),
        boards.last().inv(),
    decreases answers.len(),
{
    if answers.len() > 0 {
        let n = answers.len() - 1;
        let front = answers.drop_last();
        let seen = boards.drop_last();
        assert forall|k: int| 0 <= k < n implies (#[trigger] front[k]).leads(seen[k], seen[k + 1]) by {
            assert(answers[k].leads(boards[k], boards[k + 1]));
        }
        lemma_answers_pass(front, seen);
        assert(answers[n].leads(boards[n], boards[n + 1]));
        law_pass(answers[n], boards[n], boards[n + 1]);
        assert forall|k: int| 0 <= k < answers.len() implies passed(
            boards[k],
            #[trigger] looked_at(answers)[k],
            boards[k + 1],
        ) by {
            if k < n {
                assert(looked_at(front)[k] == looked_at(answers)[k]);
                assert(passed(seen[k], looked_at(front)[k], seen[k + 1]));
            }
        }
    }
}

/// One more resource of a list, and nothing of a list without resources. What is shown by then
/// changes nothing. What is not takes one of the panels that are free by then, which joins what was
/// found, at the end.
pub proof fn law_discovered_push(
    before: Board,
    resources: Seq<ResourceView>,
    picks: Seq<int>,
    resource: ResourceView,
    pick: int,
)
    requires
        before.picks_fit(resources.push(resource), picks.push(pick)),
    ensures
        before.discovered_all(Seq::empty(), Seq::empty()) == before,
        before.found_all(Seq::empty(), Seq::empty()).len() == 0,
        ({
            let middle = before.discovered_all(resources, picks);
            let after = before.discovered_all(resources.push(resource), picks.push(pick));
            let found = before.found_all(resources, picks);
            let more = before.found_all(resources.push(resource), picks.push(pick));
            &&& middle.display.contains_value(resource) ==> after == middle && more == found
            &&& !middle.display.contains_value(resource) ==> {
                let panel = middle.available[pick];
                &&& 0 <= pick < middle.available.len()
                &&& after.display == middle.display.insert(panel, resource)
                &&& after.available.to_multiset().insert(panel)
                    == middle.available.to_multiset()
                &&& more == found.push((panel, resource))
            }
        }),
{
    let middle = before.discovered_all(resources, picks);
    let after = before.discovered_all(resources.push(resource), picks.push(pick));
    assert(resources.push(resource).drop_last() =~= resources);
    assert(picks.push(pick).drop_last() =~= picks);
    let panel = if middle.shows(resource) {
        None
    } else {
        Some(middle.available[pick])
    };
    law_look(middle, resource, pick, after, panel);
}

/// A list was looked at to its end, or up to a resource that is not shown and has no panel left.
pub proof fn law_swept(
    before: Board,
    resources: Seq<ResourceView>,
    picks: Seq<int>,
    after: Board,
    found: Seq<(u16, ResourceView)>,
    missed: Option<ResourceView>,
)
    requires
        swept(before, resources, picks, after, found, missed),
    ensures
        missed is None <==> picks.len() == resources.len(),
        missed is None ==> after == before.discovered_all(resources, picks) && found
            == before.found_all(resources, picks),
        missed matches Some(resource) ==> (picks.len() < resources.len() && resource
            == resources[picks.len() as int] && after == before.discovered_all(
            resources.take(picks.len() as int),
            picks,
        ) && !after.display.contains_value(resource) && after.available.len() == 0),
{
    if missed is None {
        assert(resources.take(picks.len() as int) =~= resources);
    }
}

/// Where no panel is held twice, a list that was looked at to its end is shown, every resource of
/// it, and every panel that was lit before stands for what it stood for.
pub proof fn law_everything_shown(
    before: Board,
    resources: Seq<ResourceView>,
    picks: Seq<int>,
    after: Board,
    found: Seq<(u16, ResourceView)>,
    at: int,
    panel: u16,
)
    requires
        before.inv(),
        swept(before, resources, picks, after, found, None),
    ensures
        0 <= at < resources.len() ==> after.display.contains_value(resources[at]),
        before.display.contains_key(panel) ==> after.display.contains_key(panel)
            && after.display[panel] == before.display[panel],
{
    assert(resources.take(picks.len() as int) =~= resources);
    law_discovery(before, resources, picks);
    if 0 <= at < resources.len() {
        assert(resources.to_set().contains(resources[at]));
        assert(after.display.values().contains(resources[at]));
    }
}

/// Where no panel is held twice, a pass of the instance task that rests shows every instance of
/// every group of the listing.
pub proof fn law_every_instance_shown(
    reservations: Vec<Reservation>,
    before: Board,
    picks: Seq<int>,
    next: Ec2State,
    action: Ec2ActionView,
    after: Board,
    i: int,
    j: int,
)
    requires
        before.inv(),
        ec2_moved(Ec2Signal::Instances(Some(reservations)), before, picks, next, action, after),
        action is Rest,
        0 <= i < reservations@.len(),
        reservations@[i].instances is Some,
        0 <= j < reservations@[i].instances->0@.len(),
    ensures
        after.display.contains_value(
            ResourceView::Instance(reservations@[i].instances->0@[j].instance_id->0@),
        ),
{
    let instance = ResourceView::Instance(reservations@[i].instances->0@[j].instance_id->0@);
    let resources = instance_resources(Some(reservations));
    law_listing(Some(reservations));
    law_every_instance_listed(reservations@, i, j);
    let at = choose|at: int| 0 <= at < resources.len() && resources[at] == instance;
    law_everything_shown(before, resources, picks, after, action->Rest_0, at, 0);
}

/// A board is in order exactly if no panel is free twice or both lit and free, and no resource is on
/// two panels.
pub proof fn law_inv(state: Board)
    ensures
        state.inv() <==> {
            &&& forall|i: int, j: int|
                0 <= i < j < state.available.len() ==> #[trigger] state.available[i]
                    != #[trigger] state.available[j]
            &&& forall|i: int|
                0 <= i < state.available.len() ==> !state.display.contains_key(
                    #[trigger] state.available[i],
                )
            &&& forall|p: u16, q: u16|
                p != q && #[trigger] state.display.contains_key(p)
                    && #[trigger] state.display.contains_key(q) ==> state.display[p]
                    != state.display[q]
        },
{
    if forall|i: int, j: int|
        0 <= i < j < state.available.len() ==> #[trigger] state.available[i]
            != #[trigger] state.available[j] {
        assert forall|i: int, j: int|
            0 <= i < state.available.len() && 0 <= j < state.available.len() && i
                != j implies state.available[i] != state.available[j] by {
            if i < j {
                assert(state.available[i] != state.available[j]);
            } else {
                assert(state.available[j] != state.available[i]);
            }
        }
    }
    if state.inv() {
        assert forall|p: u16, q: u16|
            p != q && #[trigger] state.display.contains_key(p)
                && #[trigger] state.display.contains_key(q) implies state.display[p]
            != state.display[q] by {
            assert(state.display.dom().contains(p) && state.display.dom().contains(q));
        }
    }
}

/// Where no panel is held twice, what was found is what is newly lit: a panel and a resource are
/// among it exactly if the panel stands for the resource now and was off before.
pub proof fn law_found(
    before: Board,
    resources: Seq<ResourceView>,
    picks: Seq<int>,
    panel: u16,
    resource: ResourceView,
)
    requires
        before.inv(),
        before.picks_fit(resources, picks),
    ensures
        before.found_all(resources, picks).contains((panel, resource)) <==> {
            let after = before.discovered_all(resources, picks);
            &&& after.display.contains_key(panel)
            &&& after.display[panel] == resource
            &&& !before.display.contains_key(panel)
        },
    decreases resources.len(),
{
    let found = before.found_all(resources, picks);
    if resources.len() > 0 {
        let front = resources.drop_last();
        let chosen = picks.drop_last();
        let last = resources.last();
        let middle = before.discovered_all(front, chosen);
        let earlier = before.found_all(front, chosen);
        assert(front.push(last) =~= resources);
        assert(chosen.push(picks.last()) =~= picks);
        law_found(before, front, chosen, panel, resource);
        law_discovered_push(before, front, chosen, last, picks.last());
        law_discovery(before, front, chosen);
        if !middle.display.contains_value(last) {
            let lit = middle.available[picks.last()];
            assert(!middle.display.contains_key(lit));
            if before.display.contains_key(lit) {
                assert(middle.display.contains_key(lit));
            }
            assert(found == earlier.push((lit, last)));
            if earlier.contains((panel, resource)) {
                let i = choose|i: int|
                    0 <= i < earlier.len() && earlier[i] == (panel, resource);
                assert(found[i] == (panel, resource));
            }
            if found.contains((panel, resource)) {
                let i = choose|i: int| 0 <= i < found.len() && found[i] == (panel, resource);
                if i < earlier.len() {
                    assert(earlier[i] == (panel, resource));
                }
            }
            if panel == lit && resource == last {
                assert(found[earlier.len() as int] == (panel, resource));
            }
        }
    }
}

/// What a pass of the instance task reports, on any board: the panels that were lit on the way, each
/// with its instance. Where it gives up, the instance that it names is the first of the rest of the
/// listing, is not shown, and no panel is free.
pub proof fn law_ec2_reports(
    listing: Option<Vec<Reservation>>,
    before: Board,
    picks: Seq<int>,
    next: Ec2State,
    action: Ec2ActionView,
    after: Board,
)
    requires
        ec2_moved(Ec2Signal::Instances(listing), before, picks, next, action, after),
    ensures
        action matches Ec2ActionView::Rest(found) ==> (picks.len() == instance_resources(
            listing,
        ).len() && found == before.found_all(instance_resources(listing), picks) && after
            == before.discovered_all(instance_resources(listing), picks)),
        action matches Ec2ActionView::OutOfPanels(found, missed) ==> (picks.len()
            < instance_resources(listing).len() && missed == instance_resources(
            listing,
        )[picks.len() as int] && !after.display.contains_value(missed) && after.available.len() == 0
            && found == before.found_all(
            instance_resources(listing).take(picks.len() as int),
            picks,
        )),
{
    let resources = instance_resources(listing);
    match action {
        Ec2ActionView::Rest(found) => {
            law_swept(before, resources, picks, after, found, None);
        },
        Ec2ActionView::OutOfPanels(found, missed) => {
            law_swept(before, resources, picks, after, found, Some(missed));
        },
        _ => {},
    }
}

} // verus!
