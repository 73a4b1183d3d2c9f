//! The passes of the tasks that look for resources, in a run.
//!
//! From the moment a task gets the permit until it gives it back, the other tasks can only wait for
//! the permit or show the board. So the pass asks its service for all that is asked for meanwhile,
//! and makes all changes of the board.

use crate::board::Board;
use crate::dynamodb::{
    active, DynamoDbActionView, DynamoDbSignalView, DynamoDbStateView, TableDescription,
};
use crate::ec2::{instance_resources, Ec2ActionView, Ec2Signal, Reservation};
use crate::passes::{
    active_tables, adds_only, law_adds_only_push, law_ec2_pass, law_only_listed, law_passed_none,
    law_passed_push, lemma_active_tables_push, lemma_region_buckets_push, passed, region_buckets,
};
use crate::resource::ResourceView;
use crate::room::{lemma_newcomers_push, newcomers};
use crate::s3::{S3ActionView, S3SignalView, S3StateView};
use crate::tasks::{law_monitor_alone, law_run_one_permit, runs, turned, Scene, Turn, Worker};
use crate::touch::TouchActionView;
use vstd::prelude::*;

verus! {

/// What a service is asked for.
pub enum Request {
    /// The instances whose attribute `name` has the value `value`.
    Instances { name: Seq<char>, value: Seq<char> },
    Buckets,
    /// The location of the bucket with this name.
    Location(Seq<char>),
    Tables,
    /// The description of the table with this name.
    Description(Seq<char>),
    /// The end of a resource.
    Termination(ResourceView),
}

/// The request that a turn makes, if it makes one.
pub open spec fn request(turn: Turn) -> Seq<Request> {
    match turn {
        Turn::Touch { action: TouchActionView::Terminate(resource), .. } => {
            seq![Request::Termination(resource)]
        },
        Turn::Ec2 { action: Ec2ActionView::DescribeInstances { name, value }, .. } => {
            seq![Request::Instances { name, value }]
        },
        Turn::S3 { action: S3ActionView::ListBuckets, .. } => seq![Request::Buckets],
        Turn::S3 { action: S3ActionView::GetBucketLocation(name), .. } => {
            seq![Request::Location(name)]
        },
        Turn::DynamoDb { action: DynamoDbActionView::ListTables, .. } => {
            seq![Request::Tables]
        },
        Turn::DynamoDb { action: DynamoDbActionView::DescribeTable(name), .. } => {
            seq![Request::Description(name)]
        },
        _ => Seq::empty(),
    }
}

/// The requests that all tasks together make from the turn at `from` to before the turn at `to`.
pub open spec fn requests(turns: Seq<Turn>, from: int, to: int) -> Seq<Request>
    decreases to - from,
{
    if to <= from {
        Seq::empty()
    } else {
        requests(turns, from, to - 1) + request(turns[to - 1])
    }
}

/// A turn makes a request exactly if it asks a service for something.
pub proof fn law_request(turn: Turn)
    ensures
        request(turn).len() == 1 <==> turn.asks_service(),
        request(turn).len() == 0 <==> !turn.asks_service(),
{
}

/// The requests for the locations of buckets, one for each.
pub open spec fn location_requests(names: Seq<Option<Seq<char>>>) -> Seq<Request> {
    names.map_values(|name: Option<Seq<char>>| Request::Location(name->0))
}

/// The requests for the descriptions of tables, one for each.
pub open spec fn description_requests(names: Seq<Seq<char>>) -> Seq<Request> {
    names.map_values(|name: Seq<char>| Request::Description(name))
}

/// A pass of a task: the turn at `from` gives it the permit, and it holds the permit until the turn
/// before `to`, with which it gives the permit back.
pub open spec fn round(
    scenes: Seq<Scene>,
    turns: Seq<Turn>,
    worker: Worker,
    from: int,
    to: int,
) -> bool {
    &&& 0 <= from
    &&& from + 1 < to <= turns.len()
    &&& worker.admitted(turns[from])
    &&& forall|k: int| from < k < to ==> worker.holds(#[trigger] scenes[k])
    &&& !worker.holds(scenes[to])
}

/// What the service listed of instances in these turns.
pub open spec fn instances_told(turns: Seq<Turn>, from: int, to: int) -> Seq<ResourceView>
    decreases to - from,
{
    if to <= from {
        Seq::empty()
    } else {
        instances_told(turns, from, to - 1) + match turns[to - 1] {
            Turn::Ec2 { signal: Ec2Signal::Instances(listing), .. } => instance_resources(listing),
            _ => Seq::empty(),
        }
    }
}

/// The names of the buckets that the service listed in these turns.
pub open spec fn buckets_told(turns: Seq<Turn>, from: int, to: int) -> Seq<Option<Seq<char>>>
    decreases to - from,
{
    if to <= from {
        Seq::empty()
    } else {
        buckets_told(turns, from, to - 1) + match turns[to - 1] {
            Turn::S3 { signal: S3SignalView::Buckets(Some(names)), .. } => names,
            _ => Seq::empty(),
        }
    }
}

/// The locations of buckets that the service told in these turns.
pub open spec fn locations_told(turns: Seq<Turn>, from: int, to: int) -> Seq<Seq<char>>
    decreases to - from,
{
    if to <= from {
        Seq::empty()
    } else {
        locations_told(turns, from, to - 1) + match turns[to - 1] {
            Turn::S3 { signal: S3SignalView::Location(Some(location)), .. } => seq![location],
            _ => Seq::empty(),
        }
    }
}

/// The names of the tables that the service listed in these turns.
pub open spec fn tables_told(turns: Seq<Turn>, from: int, to: int) -> Seq<Seq<char>>
    decreases to - from,
{
    if to <= from {
        Seq::empty()
    } else {
        tables_told(turns, from, to - 1) + match turns[to - 1] {
            Turn::DynamoDb { signal: DynamoDbSignalView::Tables(Some(names)), .. } => names,
            _ => Seq::empty(),
        }
    }
}

/// The descriptions of tables that the service told in these turns.
pub open spec fn descriptions_told(turns: Seq<Turn>, from: int, to: int) -> Seq<
    Option<TableDescription>,
>
    decreases to - from,
{
    if to <= from {
        Seq::empty()
    } else {
        descriptions_told(turns, from, to - 1) + match turns[to - 1] {
            Turn::DynamoDb { signal: DynamoDbSignalView::Description(table), .. } => seq![table],
            _ => Seq::empty(),
        }
    }
}

/// During a pass, a turn of another task asks for the permit or shows the board. It makes no
/// request and leaves the board as it is.
pub proof fn law_round_alone(
    scenes: Seq<Scene>,
    turns: Seq<Turn>,
    worker: Worker,
    from: int,
    to: int,
    at: int,
)
    requires
        runs(scenes, turns),
        scenes[0].one_permit(),
        round(scenes, turns, worker, from, to),
        !(worker is Touch),
        from < at < to,
        !worker.moves(turns[at]),
    ensures
        turns[at].awaits_permit() || turns[at] is Show,
        request(turns[at]).len() == 0,
        scenes[at + 1].board == scenes[at].board,
{
    law_run_one_permit(scenes, turns, at);
    assert(turned(scenes[at], turns[at], scenes[at + 1]));
    assert(worker.holds(scenes[at]));
    if !(turns[at] is Show) {
        law_monitor_alone(scenes[at], turns[at], scenes[at + 1]);
    }
}

/// Where a pass of the bucket task stands after the turns up to `at`.
spec fn s3_standing(
    turns: Seq<Turn>,
    region: Seq<char>,
    from: int,
    at: int,
    start: Board,
    scene: Scene,
) -> bool {
    let names = buckets_told(turns, from, at);
    let locations = locations_told(turns, from, at);
    let finds = region_buckets(names, locations, region);
    match scene.s3 {
        S3StateView::Listing => {
            &&& names.len() == 0
            &&& locations.len() == 0
            &&& requests(turns, from, at) == seq![Request::Buckets]
            &&& scene.board == start
        },
        S3StateView::Ready { names: listed, next } => {
            &&& listed == names
            &&& next == locations.len()
            &&& next <= names.len()
            &&& requests(turns, from, at) == seq![Request::Buckets] + location_requests(
                names.take(next),
            )
            &&& start.inv() ==> passed(start, finds, scene.board)
            &&& adds_only(start, finds, scene.board)
        },
        S3StateView::Locating { names: listed, next } => {
            &&& listed == names
            &&& next == locations.len()
            &&& next < names.len()
            &&& requests(turns, from, at) == seq![Request::Buckets] + location_requests(
                names.take(next + 1),
            )
            &&& start.inv() ==> passed(start, finds, scene.board)
            &&& adds_only(start, finds, scene.board)
        },
        _ => false,
    }
}

proof fn lemma_s3_standing(
    scenes: Seq<Scene>,
    turns: Seq<Turn>,
    region: Seq<char>,
    from: int,
    to: int,
    at: int,
)
    requires
        runs(scenes, turns),
        scenes[0].one_permit(),
        round(scenes, turns, Worker::S3, from, to),
        forall|k: int|
            from <= k < to && #[trigger] turns[k] is S3 ==> turns[k]->S3_region == region,
        from < at < to,
    ensures
        s3_standing(turns, region, from, at, scenes[from].board, scenes[at]),
    decreases at,
{
    let start = scenes[from].board;
    let before = scenes[at - 1];
    let turn = turns[at - 1];
    let after = scenes[at];
    assert(turned(before, turn, after));
    assert(Worker::S3.holds(after));
    if at == from + 1 {
        assert(requests(turns, from, from) =~= Seq::empty());
        assert(buckets_told(turns, from, from) =~= Seq::empty());
        assert(locations_told(turns, from, from) =~= Seq::empty());
        assert(requests(turns, from, at) =~= seq![Request::Buckets]);
        assert(buckets_told(turns, from, at) =~= Seq::empty());
        assert(locations_told(turns, from, at) =~= Seq::empty());
    } else {
        lemma_s3_standing(scenes, turns, region, from, to, at - 1);
        let names = buckets_told(turns, from, at - 1);
        let locations = locations_told(turns, from, at - 1);
        let asked = requests(turns, from, at - 1);
        let finds = region_buckets(names, locations, region);
        assert(Worker::S3.holds(before));
        if !(turn is S3) {
            law_round_alone(scenes, turns, Worker::S3, from, to, at - 1);
            assert(requests(turns, from, at) =~= asked);
            assert(buckets_told(turns, from, at) =~= names);
            assert(locations_told(turns, from, at) =~= locations);
        } else {
            match before.s3 {
                S3StateView::Listing => {
                    let listed = turn->S3_signal->Buckets_0->0;
                    assert(buckets_told(turns, from, at) =~= listed);
                    assert(locations_told(turns, from, at) =~= Seq::empty());
                    assert(requests(turns, from, at) =~= seq![Request::Buckets]
                        + location_requests(listed.take(0)));
                    law_passed_none(start);
                    assert(region_buckets(listed, Seq::empty(), region) =~= Seq::empty());
                    assert(after.s3 == S3StateView::Ready { names: listed, next: 0 });
                },
                S3StateView::Ready { next, .. } => {
                    assert(buckets_told(turns, from, at) =~= names);
                    assert(locations_told(turns, from, at) =~= locations);
                    assert(location_requests(names.take(next + 1)) =~= location_requests(
                        names.take(next),
                    ).push(Request::Location(names[next]->0)));
                    assert(requests(turns, from, at) =~= seq![Request::Buckets]
                        + location_requests(names.take(next + 1)));
                },
                S3StateView::Locating { next, .. } => {
                    let location = turn->S3_signal->Location_0->0;
                    assert(buckets_told(turns, from, at) =~= names);
                    assert(locations_told(turns, from, at) =~= locations.push(location));
                    assert(requests(turns, from, at) =~= asked);
                    lemma_region_buckets_push(names, locations, location, region);
                    if location == region {
                        let bucket = ResourceView::Bucket(names[next]->0);
                        let pick = turn->S3_pick;
                        let panel = turn->S3_action->Proceed_0;
                        if start.inv() {
                            law_passed_push(
                                start,
                                finds,
                                before.board,
                                bucket,
                                pick,
                                after.board,
                                panel,
                            );
                        }
                        law_adds_only_push(
                            start,
                            finds,
                            before.board,
                            bucket,
                            pick,
                            after.board,
                            panel,
                        );
                    }
                },
                _ => {},
            }
        }
    }
}

/// A pass of the bucket task in a run. It asks once for the buckets, and then for the location of
/// each listed bucket, in the order of the listing, also of those that are shown already; meanwhile
/// nothing else is asked for. It ends when the location of the last one came, or gives up where a
/// bucket of the region needs a panel and none is free. It shows every bucket of the region, takes as
/// many panels as of these are new, and gives up exactly where they are more than the free panels.
pub proof fn law_s3_round(
    scenes: Seq<Scene>,
    turns: Seq<Turn>,
    region: Seq<char>,
    from: int,
    to: int,
)
    requires
        runs(scenes, turns),
        scenes[0].one_permit(),
        round(scenes, turns, Worker::S3, from, to),
        forall|k: int|
            from <= k < to && #[trigger] turns[k] is S3 ==> turns[k]->S3_region == region,
    ensures
        turns[to - 1] is S3,
        ({
            let names = buckets_told(turns, from, to);
            let locations = locations_told(turns, from, to);
            let finds = region_buckets(names, locations, region);
            let start = scenes[from].board;
            let end = scenes[to].board;
            let action = turns[to - 1]->S3_action;
            &&& requests(turns, from, to) == seq![Request::Buckets] + location_requests(
                names.take(locations.len() as int),
            )
            &&& action is Rest || action is OutOfPanels
            &&& action is Rest ==> locations.len() == names.len()
            &&& locations.len() <= names.len()
            &&& adds_only(start, finds, end)
            &&& start.inv() && action is Rest ==> passed(start, finds, end)
            &&& start.inv() ==> (action is OutOfPanels <==> newcomers(
                start.display.values(),
                finds,
            ) > start.available.len())
        }),
{
    let start = scenes[from].board;
    let before = scenes[to - 1];
    let turn = turns[to - 1];
    let after = scenes[to];
    let names = buckets_told(turns, from, to - 1);
    let locations = locations_told(turns, from, to - 1);
    let asked = requests(turns, from, to - 1);
    let finds = region_buckets(names, locations, region);
    lemma_s3_standing(scenes, turns, region, from, to, to - 1);
    assert(turned(before, turn, after));
    assert(Worker::S3.holds(before));
    match before.s3 {
        S3StateView::Listing => {
            let none: Seq<Option<Seq<char>>> = Seq::empty();
            assert(buckets_told(turns, from, to) =~= none);
            assert(locations_told(turns, from, to) =~= Seq::empty());
            assert(requests(turns, from, to) =~= seq![Request::Buckets] + location_requests(
                none.take(0),
            ));
            law_passed_none(start);
            assert(region_buckets(none, Seq::empty(), region) =~= Seq::empty());
        },
        S3StateView::Ready { .. } => {
            assert(buckets_told(turns, from, to) =~= names);
            assert(locations_told(turns, from, to) =~= locations);
            assert(requests(turns, from, to) =~= asked);
        },
        S3StateView::Locating { next, .. } => {
            let location = turn->S3_signal->Location_0->0;
            let bucket = ResourceView::Bucket(names[next]->0);
            assert(buckets_told(turns, from, to) =~= names);
            assert(locations_told(turns, from, to) =~= locations.push(location));
            assert(requests(turns, from, to) =~= asked);
            lemma_region_buckets_push(names, locations, location, region);
            lemma_newcomers_push(start.display.values(), finds, bucket);
            assert(before.board.shows(bucket) <==> before.board.display.values().contains(bucket));
            assert forall|r: ResourceView| #[trigger] after.board.shows(r) implies start.shows(r)
                || finds.push(bucket).contains(r) by {
                if finds.contains(r) {
                    let i = choose|i: int| 0 <= i < finds.len() && finds[i] == r;
                    assert(finds.push(bucket)[i] == r);
                }
            }
        },
        _ => {},
    }
}

/// Where a pass of the table task stands after the turns up to `at`.
spec fn dynamodb_standing(turns: Seq<Turn>, from: int, at: int, start: Board, scene: Scene) -> bool {
    let names = tables_told(turns, from, at);
    let tables = descriptions_told(turns, from, at);
    let finds = active_tables(names, tables);
    match scene.dynamodb {
        DynamoDbStateView::Listing => {
            &&& names.len() == 0
            &&& tables.len() == 0
            &&& requests(turns, from, at) == seq![Request::Tables]
            &&& scene.board == start
        },
        DynamoDbStateView::Ready { names: listed, next } => {
            &&& listed == names
            &&& next == tables.len()
            &&& next <= names.len()
            &&& requests(turns, from, at) == seq![Request::Tables] + description_requests(
                names.take(next),
            )
            &&& start.inv() ==> passed(start, finds, scene.board)
            &&& adds_only(start, finds, scene.board)
        },
        DynamoDbStateView::Describing { names: listed, next } => {
            &&& listed == names
            &&& next == tables.len()
            &&& next < names.len()
            &&& requests(turns, from, at) == seq![Request::Tables] + description_requests(
                names.take(next + 1),
            )
            &&& start.inv() ==> passed(start, finds, scene.board)
            &&& adds_only(start, finds, scene.board)
        },
        _ => false,
    }
}

proof fn lemma_dynamodb_standing(
    scenes: Seq<Scene>,
    turns: Seq<Turn>,
    from: int,
    to: int,
    at: int,
)
    requires
        runs(scenes, turns),
        scenes[0].one_permit(),
        round(scenes, turns, Worker::DynamoDb, from, to),
        from < at < to,
    ensures
        dynamodb_standing(turns, from, at, scenes[from].board, scenes[at]),
    decreases at,
{
    let start = scenes[from].board;
    let before = scenes[at - 1];
    let turn = turns[at - 1];
    let after = scenes[at];
    assert(turned(before, turn, after));
    assert(Worker::DynamoDb.holds(after));
    if at == from + 1 {
        assert(requests(turns, from, from) =~= Seq::empty());
        assert(tables_told(turns, from, from) =~= Seq::empty());
        assert(descriptions_told(turns, from, from) =~= Seq::empty());
        assert(requests(turns, from, at) =~= seq![Request::Tables]);
        assert(tables_told(turns, from, at) =~= Seq::empty());
        assert(descriptions_told(turns, from, at) =~= Seq::empty());
    } else {
        lemma_dynamodb_standing(scenes, turns, from, to, at - 1);
        let names = tables_told(turns, from, at - 1);
        let tables = descriptions_told(turns, from, at - 1);
        let asked = requests(turns, from, at - 1);
        let finds = active_tables(names, tables);
        assert(Worker::DynamoDb.holds(before));
        if !(turn is DynamoDb) {
            law_round_alone(scenes, turns, Worker::DynamoDb, from, to, at - 1);
            assert(requests(turns, from, at) =~= asked);
            assert(tables_told(turns, from, at) =~= names);
            assert(descriptions_told(turns, from, at) =~= tables);
        } else {
            match before.dynamodb {
                DynamoDbStateView::Listing => {
                    let listed = turn->DynamoDb_signal->Tables_0->0;
                    assert(tables_told(turns, from, at) =~= listed);
                    assert(descriptions_told(turns, from, at) =~= Seq::empty());
                    assert(requests(turns, from, at) =~= seq![Request::Tables]
                        + description_requests(listed.take(0)));
                    law_passed_none(start);
                    assert(active_tables(listed, Seq::empty()) =~= Seq::empty());
                    assert(after.dynamodb == DynamoDbStateView::Ready { names: listed, next: 0 });
                },
                DynamoDbStateView::Ready { next, .. } => {
                    assert(tables_told(turns, from, at) =~= names);
                    assert(descriptions_told(turns, from, at) =~= tables);
                    assert(description_requests(names.take(next + 1)) =~= description_requests(
                        names.take(next),
                    ).push(Request::Description(names[next])));
                    assert(requests(turns, from, at) =~= seq![Request::Tables]
                        + description_requests(names.take(next + 1)));
                },
                DynamoDbStateView::Describing { next, .. } => {
                    let table = turn->DynamoDb_signal->Description_0;
                    assert(tables_told(turns, from, at) =~= names);
                    assert(descriptions_told(turns, from, at) =~= tables.push(table));
                    assert(requests(turns, from, at) =~= asked);
                    lemma_active_tables_push(names, tables, table);
                    if active(table) {
                        let resource = ResourceView::Table(names[next]);
                        let pick = turn->DynamoDb_pick;
                        let panel = turn->DynamoDb_action->Proceed_0;
                        if start.inv() {
                            law_passed_push(
                                start,
                                finds,
                                before.board,
                                resource,
                                pick,
                                after.board,
                                panel,
                            );
                        }
                        law_adds_only_push(
                            start,
                            finds,
                            before.board,
                            resource,
                            pick,
                            after.board,
                            panel,
                        );
                    }
                },
                _ => {},
            }
        }
    }
}

/// A pass of the table task in a run. It asks once for the tables, and then for the description of
/// each listed table, in the order of the listing, also of those that are shown already; meanwhile
/// nothing else is asked for. It ends when the description of the last one came, or gives up where
/// an active table needs a panel and none is free. It shows every active table, takes as many panels
/// as of these are new, and gives up exactly where they are more than the free panels.
pub proof fn law_dynamodb_round(scenes: Seq<Scene>, turns: Seq<Turn>, from: int, to: int)
    requires
        runs(scenes, turns),
        scenes[0].one_permit(),
        round(scenes, turns, Worker::DynamoDb, from, to),
    ensures
        turns[to - 1] is DynamoDb,
        ({
            let names = tables_told(turns, from, to);
            let tables = descriptions_told(turns, from, to);
            let finds = active_tables(names, tables);
            let start = scenes[from].board;
            let end = scenes[to].board;
            let action = turns[to - 1]->DynamoDb_action;
            &&& requests(turns, from, to) == seq![Request::Tables] + description_requests(
                names.take(tables.len() as int),
            )
            &&& action is Rest || action is OutOfPanels
            &&& action is Rest ==> tables.len() == names.len()
            &&& tables.len() <= names.len()
            &&& adds_only(start, finds, end)
            &&& start.inv() && action is Rest ==> passed(start, finds, end)
            &&& start.inv() ==> (action is OutOfPanels <==> newcomers(
                start.display.values(),
                finds,
            ) > start.available.len())
        }),
{
    let start = scenes[from].board;
    let before = scenes[to - 1];
    let turn = turns[to - 1];
    let after = scenes[to];
    let names = tables_told(turns, from, to - 1);
    let tables = descriptions_told(turns, from, to - 1);
    let asked = requests(turns, from, to - 1);
    let finds = active_tables(names, tables);
    lemma_dynamodb_standing(scenes, turns, from, to, to - 1);
    assert(turned(before, turn, after));
    assert(Worker::DynamoDb.holds(before));
    match before.dynamodb {
        DynamoDbStateView::Listing => {
            let none: Seq<Seq<char>> = Seq::empty();
            assert(tables_told(turns, from, to) =~= none);
            assert(descriptions_told(turns, from, to) =~= Seq::empty());
            assert(requests(turns, from, to) =~= seq![Request::Tables] + description_requests(
                none.take(0),
            ));
            law_passed_none(start);
            assert(active_tables(none, Seq::empty()) =~= Seq::empty());
        },
        DynamoDbStateView::Ready { .. } => {
            assert(tables_told(turns, from, to) =~= names);
            assert(descriptions_told(turns, from, to) =~= tables);
            assert(requests(turns, from, to) =~= asked);
        },
        DynamoDbStateView::Describing { next, .. } => {
            let table = turn->DynamoDb_signal->Description_0;
            let resource = ResourceView::Table(names[next]);
            assert(tables_told(turns, from, to) =~= names);
            assert(descriptions_told(turns, from, to) =~= tables.push(table));
            assert(requests(turns, from, to) =~= asked);
            lemma_active_tables_push(names, tables, table);
            lemma_newcomers_push(start.display.values(), finds, resource);
            assert(before.board.shows(resource) <==> before.board.display.values().contains(
                resource,
            ));
            assert forall|r: ResourceView| #[trigger] after.board.shows(r) implies start.shows(r)
                || finds.push(resource).contains(r) by {
                if finds.contains(r) {
                    let i = choose|i: int| 0 <= i < finds.len() && finds[i] == r;
                    assert(finds.push(resource)[i] == r);
                }
            }
        },
        _ => {},
    }
}

/// While a pass of the instance task waits for its listing, nothing changes.
proof fn lemma_ec2_standing(
    scenes: Seq<Scene>,
    turns: Seq<Turn>,
    from: int,
    to: int,
    at: int,
)
    requires
        runs(scenes, turns),
        scenes[0].one_permit(),
        round(scenes, turns, Worker::Ec2, from, to),
        from < at < to,
    ensures
        scenes[at].board == scenes[from].board,
        instances_told(turns, from, at).len() == 0,
        requests(turns, from, at) == seq![
            Request::Instances { name: "instance-state-name"@, value: "running"@ },
        ],
    decreases at,
{
    let before = scenes[at - 1];
    let turn = turns[at - 1];
    assert(turned(before, turn, scenes[at]));
    assert(Worker::Ec2.holds(scenes[at]));
    if at == from + 1 {
        assert(requests(turns, from, from) =~= Seq::empty());
        assert(instances_told(turns, from, from) =~= Seq::empty());
        assert(requests(turns, from, at) =~= request(turn));
    } else {
        lemma_ec2_standing(scenes, turns, from, to, at - 1);
        assert(Worker::Ec2.holds(before));
        assert(!(turn is Ec2));
        law_round_alone(scenes, turns, Worker::Ec2, from, to, at - 1);
        assert(requests(turns, from, at) =~= requests(turns, from, at - 1));
    }
}

/// A pass of the instance task in a run. It makes one request, for the running instances, and
/// meanwhile nothing else is asked for. It shows every listed instance, takes as many panels as of
/// these are new, and gives up exactly where they are more than the free panels.
pub proof fn law_ec2_round(scenes: Seq<Scene>, turns: Seq<Turn>, from: int, to: int)
    requires
        runs(scenes, turns),
        scenes[0].one_permit(),
        round(scenes, turns, Worker::Ec2, from, to),
    ensures
        turns[to - 1] is Ec2,
        ({
            let finds = instances_told(turns, from, to);
            let start = scenes[from].board;
            let end = scenes[to].board;
            let action = turns[to - 1]->Ec2_action;
            &&& requests(turns, from, to) == seq![
                Request::Instances { name: "instance-state-name"@, value: "running"@ },
            ]
            &&& action is Rest || action is OutOfPanels
            &&& adds_only(start, finds, end)
            &&& start.inv() && action is Rest ==> passed(start, finds, end)
            &&& start.inv() ==> (action is OutOfPanels <==> newcomers(
                start.display.values(),
                finds,
            ) > start.available.len())
        }),
{
    let start = scenes[from].board;
    let before = scenes[to - 1];
    let after = scenes[to];
    lemma_ec2_standing(scenes, turns, from, to, to - 1);
    assert(turned(before, turns[to - 1], after));
    assert(Worker::Ec2.holds(before));
    assert(turns[to - 1] is Ec2);
    let picks = turns[to - 1]->Ec2_picks;
    let action = turns[to - 1]->Ec2_action;
    let listing: Option<Vec<Reservation>> = turns[to - 1]->Ec2_signal->Instances_0;
    let finds = instance_resources(listing);
    let front = finds.take(picks.len() as int);
    assert(instances_told(turns, from, to) =~= finds);
    assert(requests(turns, from, to) =~= requests(turns, from, to - 1));
    law_only_listed(start, front, picks);
    assert forall|r: ResourceView| #[trigger] after.board.shows(r) implies start.shows(r)
        || finds.contains(r) by {
        if front.contains(r) {
            let i = choose|i: int| 0 <= i < front.len() && front[i] == r;
            assert(finds[i] == r);
        }
    }
    if start.inv() {
        law_ec2_pass(listing, start, picks, after.ec2, action, after.board);
    }
}

} // verus!
