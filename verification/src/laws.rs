//! What holds of the board and of its frames, whatever the tasks do.

use crate::board::{discovery, Board};
use crate::display::lists;
use crate::frame::{board_cells, dark};
use crate::panel::{is_light, lights, Panel};
use crate::resource::ResourceView;
use crate::room::lemma_placed;
use crate::touch::{touch_step, TouchSignalView, TouchStateView};
use vstd::prelude::*;

verus! {

/// Nothing is lost and nothing is doubled between two boards: the later one holds no panel and no
/// resource twice if the earlier one does not, and both have the same panels.
pub open spec fn keeps(before: Board, after: Board) -> bool {
    before.inv() ==> after.inv() && after.panels() == before.panels()
}

/// Nothing is lost, nothing is doubled, and every panel that is lit in the earlier board stands for
/// the same resource in the later one.
pub open spec fn grows(before: Board, after: Board) -> bool {
    &&& keeps(before, after)
    &&& before.inv() ==> before.display.submap_of(after.display)
}

/// The board is in order, and the panel whose resource the touch task terminates is lit.
pub open spec fn in_order(state: Board, touch: TouchStateView) -> bool {
    &&& state.inv()
    &&& match touch {
        TouchStateView::Terminating { panels, next } => state.display.contains_key(panels[next]),
        TouchStateView::Pausing { panels, next } => state.display.contains_key(panels[next]),
        _ => true,
    }
}

/// At the start, with no panel lit and panels of different ids, no panel is held twice.
pub proof fn law_start(available: Seq<u16>)
    requires
        available.no_duplicates(),
    ensures
        ({
            let start = Board { display: Map::empty(), available };
            in_order(start, TouchStateView::Streaming) && start.panels() == available.to_set()
        }),
{
    let start = Board { display: Map::<u16, ResourceView>::empty(), available };
    assert(start.panels() =~= available.to_set());
}

/// Lighting a free panel for a new resource keeps the board in order, shows the resource, and
/// leaves every other lit panel as it is.
pub proof fn law_place(before: Board, pick: int, resource: ResourceView)
    requires
        before.inv(),
        0 <= pick < before.available.len(),
        !before.shows(resource),
    ensures
        keeps(before, before.placed(pick, resource)),
        before.placed(pick, resource).shows(resource),
        before.placed(pick, resource).display == before.display.insert(
            before.available[pick],
            resource,
        ),
        !before.display.contains_key(before.available[pick]),
{
    let panel = before.available[pick];
    let after = before.placed(pick, resource);
    lemma_placed(before, pick, resource);
    assert(after.display.contains_key(panel) && after.display[panel] == resource);
    assert forall|a: u16, b: u16|
        a != b && after.display.dom().contains(a) && after.display.dom().contains(
            b,
        ) implies #[trigger] after.display[a] != #[trigger] after.display[b] by {
        if a == panel {
            assert(before.display.contains_key(b) && before.display[b] == after.display[b]);
        } else if b == panel {
            assert(before.display.contains_key(a) && before.display[a] == after.display[a]);
        } else {
            assert(before.display[a] != before.display[b]);
        }
    }
    assert(after.panels() =~= before.panels()) by {
        assert forall|p: u16| before.panels().contains(p) implies #[trigger]
            after.panels().contains(p) by {
            if !before.display.contains_key(p) && p != panel {
                let i = choose|i: int|
                    0 <= i < before.available.len() && #[trigger] before.available[i] == p;
                let at = if i == before.available.len() - 1 {
                    pick
                } else {
                    i
                };
                assert(after.available[at] == p);
            }
        }
        assert forall|p: u16| after.panels().contains(p) implies #[trigger]
            before.panels().contains(p) by {
            if after.available.contains(p) {
                let i = choose|i: int|
                    0 <= i < after.available.len() && #[trigger] after.available[i] == p;
                let from = if i == pick {
                    before.available.len() - 1
                } else {
                    i
                };
                assert(before.available[from] == p);
            }
        }
    }
}

/// Turning a lit panel off keeps the board in order, and leaves every other lit panel as it is.
pub proof fn law_release(before: Board, panel: u16)
    requires
        before.inv(),
        before.display.contains_key(panel),
    ensures
        keeps(before, before.released(panel)),
        !before.released(panel).shows(before.display[panel]),
        before.released(panel).display == before.display.remove(panel),
        before.released(panel).available.contains(panel),
{
    let after = before.released(panel);
    assert(after.available[before.available.len() as int] == panel);
    assert forall|i: int| 0 <= i < after.available.len() implies !after.display.contains_key(
        #[trigger] after.available[i],
    ) by {
        if i < before.available.len() {
            assert(after.available[i] == before.available[i]);
        }
    }
    assert forall|i: int, j: int|
        0 <= i < after.available.len() && 0 <= j < after.available.len() && i
            != j implies after.available[i] != after.available[j] by {
        if i < before.available.len() && j < before.available.len() {
            assert(before.available[i] != before.available[j]);
        } else if i < before.available.len() {
            assert(!before.display.contains_key(before.available[i]));
        } else {
            assert(!before.display.contains_key(before.available[j]));
        }
    }
    if after.shows(before.display[panel]) {
        let other = choose|other: u16|
            after.display.contains_key(other) && #[trigger] after.display[other]
                == before.display[panel];
        assert(before.display[other] != before.display[panel]);
    }
    assert(after.panels() =~= before.panels()) by {
        assert forall|p: u16| before.panels().contains(p) implies #[trigger]
            after.panels().contains(p) by {
            if before.available.contains(p) {
                let i = choose|i: int|
                    0 <= i < before.available.len() && #[trigger] before.available[i] == p;
                assert(after.available[i] == p);
            }
        }
    }
}

/// Turning off the panel that was lit for a resource undoes the lighting: the display is as
/// before, and the same panels are free, in some order.
pub proof fn law_release_undoes_place(before: Board, pick: int, resource: ResourceView)
    requires
        before.inv(),
        0 <= pick < before.available.len(),
        !before.shows(resource),
    ensures
        ({
            let after = before.placed(pick, resource).released(before.available[pick]);
            after.display == before.display && after.available.to_multiset()
                == before.available.to_multiset()
        }),
{
    let panel = before.available[pick];
    let middle = before.placed(pick, resource);
    let after = middle.released(panel);
    let free = before.available;
    law_place(before, pick, resource);
    assert(after.display =~= before.display);
    let last = free.len() - 1;
    broadcast use vstd::seq_lib::group_to_multiset_ensures;
    assert(free =~= free.drop_last().push(free.last()));
    if pick == last {
        assert(middle.available =~= free.drop_last());
        assert(after.available =~= free);
    } else {
        assert(middle.available =~= free.drop_last().update(pick, free.last()));
        vstd::seq_lib::to_multiset_update(free.drop_last(), pick, free.last());
        assert(after.available.to_multiset() =~= free.to_multiset());
    }
}

/// A step of the touch task keeps all in order.
pub proof fn law_touch_keeps(state: TouchStateView, signal: TouchSignalView, before: Board)
    requires
        in_order(before, state),
        state.touch_known(before.display),
    ensures
        in_order(touch_step(state, signal, before).2, touch_step(state, signal, before).0),
        touch_step(state, signal, before).2.panels() == before.panels(),
{
    if let TouchStateView::Pausing { panels, next } = state {
        law_release(before, panels[next]);
    }
}

/// The other tasks keep all in order, wherever the touch task stands: they only light panels.
pub proof fn law_growth_keeps(before: Board, after: Board, touch: TouchStateView)
    requires
        in_order(before, touch),
        grows(before, after),
    ensures
        in_order(after, touch),
        after.panels() == before.panels(),
{
    match touch {
        TouchStateView::Terminating { panels, next } => {
            assert(before.display.contains_key(panels[next]));
        },
        TouchStateView::Pausing { panels, next } => {
            assert(before.display.contains_key(panels[next]));
        },
        _ => {},
    }
}

/// A look at one resource at most lights a panel, and leaves the resource shown.
pub proof fn law_look_grows(
    before: Board,
    resource: ResourceView,
    pick: int,
    after: Board,
    panel: Option<u16>,
)
    requires
        discovery(before, resource, pick, after, panel),
    ensures
        grows(before, after),
        after.shows(resource),
{
    if !before.shows(resource) {
        assert(after.display.contains_key(before.available[pick]));
        assert(after.display[before.available[pick]] == resource);
        if before.inv() {
            law_place(before, pick, resource);
        }
    }
}

/// A frame has one cell for every panel, lit or free, and no other: a lit panel has the color of
/// its service, and a free panel is dark.
pub proof fn law_frame(state: Board, order: Seq<(u16, ResourceView)>)
    requires
        state.separated(),
        lists(order, state.display),
    ensures
        ({
            let cells = board_cells(order, state.available);
            &&& forall|i: int, j: int|
                0 <= i < j < cells.len() ==> (#[trigger] cells[i]).0 != (#[trigger] cells[j]).0
            &&& forall|i: int|
                0 <= i < cells.len() ==> state.panels().contains((#[trigger] cells[i]).0)
                    && cells[i].1 == if state.display.contains_key(cells[i].0) {
                    state.display[cells[i].0].color()
                } else {
                    dark()
                }
            &&& forall|p: u16| #[trigger]
                state.panels().contains(p) ==> exists|i: int|
                    0 <= i < cells.len() && (#[trigger] cells[i]).0 == p
            &&& cells.len() == state.panels().len()
        }),
{
    let cells = board_cells(order, state.available);
    let lit = order.len() as int;
    assert forall|i: int| 0 <= i < cells.len() implies state.panels().contains(
        (#[trigger] cells[i]).0,
    ) && cells[i].1 == if state.display.contains_key(cells[i].0) {
        state.display[cells[i].0].color()
    } else {
        dark()
    } by {
        if i < lit {
            assert(cells[i] == (order[i].0, order[i].1.color()));
        } else {
            assert(cells[i] == (state.available[i - lit], dark()));
        }
    }
    assert forall|i: int, j: int| 0 <= i < j < cells.len() implies (#[trigger] cells[i]).0 != (
    #[trigger] cells[j]).0 by {
        if j < lit {
            assert(cells[i].0 == order[i].0 && cells[j].0 == order[j].0);
        } else if i < lit {
            assert(cells[i].0 == order[i].0 && cells[j].0 == state.available[j - lit]);
        } else {
            assert(cells[i].0 == state.available[i - lit] && cells[j].0 == state.available[j - lit]);
        }
    }
    assert forall|p: u16| #[trigger] state.panels().contains(p) implies exists|i: int|
        0 <= i < cells.len() && (#[trigger] cells[i]).0 == p by {
        if state.display.contains_key(p) {
            let i = choose|i: int| 0 <= i < order.len() && (#[trigger] order[i]).0 == p;
            assert(cells[i].0 == p);
        } else {
            let i = choose|i: int|
                0 <= i < state.available.len() && #[trigger] state.available[i] == p;
            assert(cells[lit + i].0 == p);
        }
    }
    let ids = cells.map_values(|c: (u16, Seq<char>)| c.0);
    assert(ids.no_duplicates());
    ids.unique_seq_to_set();
    assert(ids.to_set() =~= state.panels()) by {
        assert forall|p: u16| #[trigger] state.panels().contains(p) implies ids.to_set().contains(
            p,
        ) by {
            let i = choose|i: int| 0 <= i < cells.len() && (#[trigger] cells[i]).0 == p;
            assert(ids[i] == p);
        }
    }
}

/// A touched panel goes dark: once the touch on a lit panel is handled, every frame has the panel
/// off, and no frame shows its resource.
pub proof fn law_touched_dark(before: Board, panel: u16, order: Seq<(u16, ResourceView)>)
    requires
        before.inv(),
        before.display.contains_key(panel),
        lists(order, before.released(panel).display),
    ensures
        board_cells(order, before.released(panel).available).contains((panel, dark())),
        forall|i: int| 0 <= i < order.len() ==> (#[trigger] order[i]).1 != before.display[panel],
{
    let after = before.released(panel);
    law_release(before, panel);
    law_frame(after, order);
    let cells = board_cells(order, after.available);
    assert(after.panels().contains(panel));
    let at = choose|i: int| 0 <= i < cells.len() && (#[trigger] cells[i]).0 == panel;
    assert(cells[at] == (panel, dark()));
    assert forall|i: int| 0 <= i < order.len() implies (#[trigger] order[i]).1
        != before.display[panel] by {
        assert(after.display[order[i].0] == order[i].1);
        assert(after.shows(order[i].1));
    }
}

/// A shown resource lights a panel: every frame has exactly one cell whose panel stands for it, in
/// the color of its service.
pub proof fn law_shown_lit(state: Board, resource: ResourceView, order: Seq<(u16, ResourceView)>)
    requires
        state.inv(),
        state.shows(resource),
        lists(order, state.display),
    ensures
        exists|panel: u16|
            #![trigger state.display[panel]]
            {
                &&& state.display.contains_key(panel)
                &&& state.display[panel] == resource
                &&& board_cells(order, state.available).contains((panel, resource.color()))
                &&& forall|other: u16|
                    state.display.contains_key(other) && #[trigger] state.display[other] == resource
                        ==> other == panel
            },
{
    law_frame(state, order);
    let cells = board_cells(order, state.available);
    let panel = choose|panel: u16|
        state.display.contains_key(panel) && #[trigger] state.display[panel] == resource;
    assert(state.panels().contains(panel));
    let at = choose|i: int| 0 <= i < cells.len() && (#[trigger] cells[i]).0 == panel;
    assert(cells[at] == (panel, resource.color()));
}

/// Panels are controllers or give light.
proof fn lemma_split_lights(panels: Seq<Panel>)
    ensures
        lights(panels).len() + panels.filter(|panel: Panel| !is_light(panel)).len() == panels.len(),
    decreases panels.len(),
{
    reveal(Seq::filter);
    if panels.len() > 0 {
        lemma_split_lights(panels.drop_last());
    }
}

/// Where the controller counts the panels of the layout, itself among them once, the number at the
/// head of a frame is the number of panels that give light.
pub proof fn law_panel_count(num_panels: u16, panels: Seq<Panel>)
    requires
        num_panels == panels.len(),
        panels.filter(|panel: Panel| !is_light(panel)).len() == 1,
    ensures
        num_panels - 1 == lights(panels).len(),
{
    lemma_split_lights(panels);
}

/// As long as the board has the panels of the layout, which have different ids, every frame has as
/// many cells as there are panels that give light.
pub proof fn law_frame_len(state: Board, order: Seq<(u16, ResourceView)>, panels: Seq<Panel>)
    requires
        state.separated(),
        state.panels() == lights(panels).to_set(),
        lights(panels).no_duplicates(),
        lists(order, state.display),
    ensures
        board_cells(order, state.available).len() == lights(panels).len(),
{
    law_frame(state, order);
    lights(panels).unique_seq_to_set();
}

} // verus!
