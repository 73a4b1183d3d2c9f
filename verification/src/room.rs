//! How many free panels a list of resources needs.

use crate::board::{swept, Board};
use crate::resource::ResourceView;
use vstd::prelude::*;

verus! {

/// How many different resources of the list are not among `shown`.
pub open spec fn newcomers(shown: Set<ResourceView>, resources: Seq<ResourceView>) -> nat
    decreases resources.len(),
{
    if resources.len() == 0 {
        0
    } else if shown.contains(resources.first()) {
        newcomers(shown, resources.drop_first())
    } else {
        1 + newcomers(shown.insert(resources.first()), resources.drop_first())
    }
}

/// A resource at the end of a list counts as a newcomer if neither the display nor the list before
/// it has it.
pub proof fn lemma_newcomers_push(
    shown: Set<ResourceView>,
    resources: Seq<ResourceView>,
    last: ResourceView,
)
    ensures
        newcomers(shown, resources.push(last)) == newcomers(shown, resources) + if shown.contains(
            last,
        ) || resources.contains(last) {
            0nat
        } else {
            1nat
        },
    decreases resources.len(),
{
    let all = resources.push(last);
    if resources.len() == 0 {
        assert(all.drop_first() =~= Seq::empty());
        assert(newcomers(shown.insert(last), all.drop_first()) == 0);
        assert(newcomers(shown, all.drop_first()) == 0);
    } else {
        let first = resources.first();
        let rest = resources.drop_first();
        assert(all.first() == first);
        assert(all.drop_first() =~= rest.push(last));
        lemma_newcomers_push(shown, rest, last);
        lemma_newcomers_push(shown.insert(first), rest, last);
        assert(resources.contains(last) <==> first == last || rest.contains(last)) by {
            if resources.contains(last) {
                let i = choose|i: int| 0 <= i < resources.len() && resources[i] == last;
                if i > 0 {
                    assert(rest[i - 1] == last);
                }
            }
            if rest.contains(last) {
                let i = choose|i: int| 0 <= i < rest.len() && rest[i] == last;
                assert(resources[i + 1] == last);
            }
            assert(resources[0] == first);
        }
    }
}

/// A list has at least as many newcomers as its beginning.
pub proof fn lemma_newcomers_take(shown: Set<ResourceView>, resources: Seq<ResourceView>, end: int)
    requires
        0 <= end <= resources.len(),
    ensures
        newcomers(shown, resources.take(end)) <= newcomers(shown, resources),
    decreases resources.len() - end,
{
    if end < resources.len() {
        lemma_newcomers_take(shown, resources, end + 1);
        lemma_newcomers_push(shown, resources.take(end), resources[end]);
        assert(resources.take(end).push(resources[end]) =~= resources.take(end + 1));
    } else {
        assert(resources.take(end) =~= resources);
    }
}

/// Newcomers are counted alike in lists of the same resources.
pub proof fn lemma_newcomers_set(shown: Set<ResourceView>, resources: Seq<ResourceView>)
    ensures
        resources.to_set().difference(shown).finite(),
        newcomers(shown, resources) == resources.to_set().difference(shown).len(),
    decreases resources.len(),
{
    broadcast use vstd::seq_lib::seq_to_set_is_finite;

    let all = resources.to_set();
    if resources.len() == 0 {
        assert(all.difference(shown) =~= Set::empty());
    } else {
        let first = resources.first();
        let rest = resources.drop_first();
        assert(resources =~= seq![first] + rest);
        assert(all =~= rest.to_set().insert(first)) by {
            assert forall|r: ResourceView| #[trigger] all.contains(r) implies rest.to_set().insert(
                first,
            ).contains(r) by {
                let i = choose|i: int| 0 <= i < resources.len() && resources[i] == r;
                if i > 0 {
                    assert(rest[i - 1] == r);
                }
            }
            assert forall|r: ResourceView| #[trigger]
                rest.to_set().insert(first).contains(r) implies all.contains(r) by {
                if r == first {
                    assert(resources[0] == r);
                } else {
                    let i = choose|i: int| 0 <= i < rest.len() && rest[i] == r;
                    assert(resources[i + 1] == r);
                }
            }
        }
        if shown.contains(first) {
            lemma_newcomers_set(shown, rest);
            assert(all.difference(shown) =~= rest.to_set().difference(shown));
        } else {
            let others = rest.to_set().difference(shown.insert(first));
            lemma_newcomers_set(shown.insert(first), rest);
            assert(all.difference(shown) =~= others.insert(first));
        }
    }
}

/// The newcomers of two lists in a row: those of the first, and those of the second that the first
/// does not have.
pub proof fn lemma_newcomers_add(
    shown: Set<ResourceView>,
    first: Seq<ResourceView>,
    second: Seq<ResourceView>,
)
    ensures
        newcomers(shown, first + second) == newcomers(shown, first) + newcomers(
            shown.union(first.to_set()),
            second,
        ),
    decreases second.len(),
{
    broadcast use vstd::seq_lib::seq_to_set_is_finite;

    if second.len() == 0 {
        assert(first + second =~= first);
    } else {
        let front = second.drop_last();
        let last = second.last();
        lemma_newcomers_add(shown, first, front);
        lemma_newcomers_push(shown, first + front, last);
        lemma_newcomers_push(shown.union(first.to_set()), front, last);
        assert((first + front).push(last) =~= first + second);
        assert(front.push(last) =~= second);
        assert((first + front).contains(last) <==> first.contains(last) || front.contains(last)) by {
            if first.contains(last) {
                let i = choose|i: int| 0 <= i < first.len() && first[i] == last;
                assert((first + front)[i] == last);
            }
            if front.contains(last) {
                let i = choose|i: int| 0 <= i < front.len() && front[i] == last;
                assert((first + front)[first.len() + i] == last);
            }
        }
    }
}

/// Lighting a free panel of a separated board for a new resource adds one pair, and leaves a
/// separated board.
pub proof fn lemma_placed(state: Board, pick: int, resource: ResourceView)
    requires
        state.separated(),
        0 <= pick < state.available.len(),
        !state.shows(resource),
    ensures
        state.placed(pick, resource).separated(),
        state.placed(pick, resource).display == state.display.insert(
            state.available[pick],
            resource,
        ),
        state.placed(pick, resource).available.len() == state.available.len() - 1,
        state.placed(pick, resource).display.values() == state.display.values().insert(resource),
{
    let panel = state.available[pick];
    let after = state.placed(pick, resource);
    assert(after.display =~= state.display.insert(panel, resource));
    assert(after.display.values() =~= state.display.values().insert(resource)) by {
        assert forall|value: ResourceView|
            state.display.values().insert(resource).contains(value) implies #[trigger]
            after.display.values().contains(value) by {
            if value == resource {
                assert(after.display.dom().contains(panel) && after.display[panel] == resource);
            } else {
                let key = choose|key: u16|
                    #[trigger] state.display.dom().contains(key) && state.display[key] == value;
                assert(after.display.dom().contains(key) && after.display[key] == value);
            }
        }
    }
    assert forall|i: int| 0 <= i < after.available.len() implies !after.display.contains_key(
        #[trigger] after.available[i],
    ) by {
        let from = if i == pick {
            state.available.len() - 1
        } else {
            i
        };
        assert(after.available[i] == state.available[from]);
        assert(state.available[from] != panel);
    }
}

/// As many free panels as the list has entries are always enough.
pub proof fn law_room_for_entries(state: Board, resources: Seq<ResourceView>)
    requires
        resources.len() <= state.available.len(),
    ensures
        state.room(resources),
    decreases resources.len(),
{
    if resources.len() > 0 {
        let first = resources.first();
        let rest = resources.drop_first();
        if state.shows(first) {
            law_room_for_entries(state, rest);
        } else {
            assert forall|pick: int| 0 <= pick < state.available.len() implies (
            #[trigger] state.placed(pick, first)).room(rest) by {
                law_room_for_entries(state.placed(pick, first), rest);
            }
        }
    }
}

/// On a board on which no panel is held twice, room for a list is a free panel for every
/// newcomer.
pub proof fn law_room(state: Board, resources: Seq<ResourceView>)
    requires
        state.separated(),
    ensures
        state.room(resources) <==> newcomers(state.display.values(), resources)
            <= state.available.len(),
    decreases resources.len(),
{
    if resources.len() > 0 {
        let first = resources.first();
        let rest = resources.drop_first();
        if state.shows(first) {
            assert(state.display.values().contains(first));
            law_room(state, rest);
        } else {
            assert(!state.display.values().contains(first));
            assert forall|pick: int| 0 <= pick < state.available.len() implies (
            #[trigger] state.placed(pick, first)).room(rest) == (newcomers(
                state.display.values().insert(first),
                rest,
            ) <= state.available.len() - 1) by {
                lemma_placed(state, pick, first);
                law_room(state.placed(pick, first), rest);
            }
            if state.available.len() > 0 {
                let any = state.placed(0, first);
                assert(any.room(rest) == (newcomers(state.display.values().insert(first), rest)
                    <= state.available.len() - 1));
            }
        }
    }
}

/// Looking at a list is looking at its first resource and then at the others.
proof fn lemma_first_then_rest(before: Board, resources: Seq<ResourceView>, picks: Seq<int>)
    requires
        resources.len() > 0,
        picks.len() == resources.len(),
    ensures
        ({
            let middle = before.discovered(resources.first(), picks.first());
            let rest = resources.drop_first();
            let others = picks.drop_first();
            &&& before.discovered_all(resources, picks) == middle.discovered_all(rest, others)
            &&& before.picks_fit(resources, picks) <==> (before.shows(resources.first()) || 0
                <= picks.first() < before.available.len()) && middle.picks_fit(rest, others)
        }),
    decreases resources.len(),
{
    let middle = before.discovered(resources.first(), picks.first());
    let rest = resources.drop_first();
    let others = picks.drop_first();
    let front = resources.drop_last();
    let chosen = picks.drop_last();
    if resources.len() == 1 {
        assert(before.discovered_all(front, chosen) == before);
        assert(middle.discovered_all(rest, others) == middle);
        assert(before.picks_fit(front, chosen));
    } else {
        lemma_first_then_rest(before, front, chosen);
        assert(front.drop_first() =~= rest.drop_last());
        assert(chosen.drop_first() =~= others.drop_last());
        assert(rest.last() == resources.last());
        assert(others.last() == picks.last());
    }
}

/// Where there is room for a list, there is room for the rest of it once its beginning was looked
/// at.
proof fn lemma_room_left(before: Board, resources: Seq<ResourceView>, picks: Seq<int>)
    requires
        before.room(resources),
        picks.len() <= resources.len(),
        before.picks_fit(resources.take(picks.len() as int), picks),
    ensures
        before.discovered_all(resources.take(picks.len() as int), picks).room(
            resources.skip(picks.len() as int),
        ),
    decreases picks.len(),
{
    let end = picks.len() as int;
    let front = resources.take(end);
    if end == 0 {
        assert(resources.skip(0) =~= resources);
    } else {
        assert(front.drop_last() =~= resources.take(end - 1));
        lemma_room_left(before, resources, picks.drop_last());
        let middle = before.discovered_all(front.drop_last(), picks.drop_last());
        let rest = resources.skip(end - 1);
        assert(rest.first() == front.last());
        assert(rest.drop_first() =~= resources.skip(end));
        if !middle.shows(front.last()) {
            assert(middle.placed(picks.last(), rest.first()).room(rest.drop_first()));
        }
    }
}

/// Where there is no room for a list, some picks lead to a resource that finds no free panel.
proof fn lemma_no_room(before: Board, resources: Seq<ResourceView>) -> (picks: Seq<int>)
    requires
        !before.room(resources),
    ensures
        picks.len() < resources.len(),
        before.picks_fit(resources.take(picks.len() as int), picks),
        ({
            let after = before.discovered_all(resources.take(picks.len() as int), picks);
            !after.shows(resources[picks.len() as int]) && after.available.len() == 0
        }),
    decreases resources.len(),
{
    let first = resources.first();
    let rest = resources.drop_first();
    if !before.shows(first) && before.available.len() == 0 {
        assert(resources.take(0) =~= Seq::empty());
        Seq::empty()
    } else {
        let pick: int = if before.shows(first) {
            0
        } else {
            choose|pick: int|
                0 <= pick < before.available.len() && !(#[trigger] before.placed(
                    pick,
                    first,
                )).room(rest)
        };
        let others = lemma_no_room(before.discovered(first, pick), rest);
        let picks = seq![pick] + others;
        let front = resources.take(picks.len() as int);
        assert(front.drop_first() =~= rest.take(others.len() as int));
        assert(picks.drop_first() =~= others);
        lemma_first_then_rest(before, front, picks);
        picks
    }
}

/// There is room for a list exactly if it can be looked at to its end whatever panels are picked.
pub proof fn law_room_is_enough(before: Board, resources: Seq<ResourceView>)
    ensures
        before.room(resources) <==> forall|
            picks: Seq<int>,
            after: Board,
            found: Seq<(u16, ResourceView)>,
            missed: Option<ResourceView>,
        | #[trigger]
            swept(before, resources, picks, after, found, missed) ==> missed is None,
{
    if before.room(resources) {
        assert forall|
            picks: Seq<int>,
            after: Board,
            found: Seq<(u16, ResourceView)>,
            missed: Option<ResourceView>,
        | #[trigger] swept(before, resources, picks, after, found, missed) implies missed is None by {
            lemma_room_left(before, resources, picks);
            let rest = resources.skip(picks.len() as int);
            if missed is Some {
                assert(rest.first() == resources[picks.len() as int]);
            }
        }
    } else {
        let picks = lemma_no_room(before, resources);
        let front = resources.take(picks.len() as int);
        let after = before.discovered_all(front, picks);
        let found = before.found_all(front, picks);
        assert(swept(
            before,
            resources,
            picks,
            after,
            found,
            Some(resources[picks.len() as int]),
        ));
    }
}

} // verus!
