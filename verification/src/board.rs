//! The board: the display and the panels that are free, and how resources take and leave panels.

use crate::chance::random_index;
use crate::display::{overwrite, pairs_view, Display};
use crate::resource::{AWSResource, ResourceView};
use crate::room::law_room_for_entries;
use vstd::prelude::*;

verus! {

/// The lit panels with their resources, and the free panels in the order in which they are held.
#[verifier::ext_equal]
pub struct Board {
    pub display: Map<u16, ResourceView>,
    pub available: Seq<u16>,
}

/// The board that a display and a list of free panels make.
pub open spec fn board(display: Display, available: Vec<u16>) -> Board {
    Board { display: display@, available: available@ }
}

impl Board {
    /// Some panel stands for `resource`.
    pub open spec fn shows(self, resource: ResourceView) -> bool {
        self.display.contains_value(resource)
    }

    /// `resource` needs a panel and none is free.
    pub open spec fn lacks_panel(self, resource: ResourceView) -> bool {
        !self.shows(resource) && self.available.len() == 0
    }

    /// The free panel at `pick` is lit for `resource`; the last free panel takes its place.
    pub open spec fn placed(self, pick: int, resource: ResourceView) -> Board {
        Board {
            display: overwrite(self.display, self.available[pick], resource),
            available: self.available.update(pick, self.available.last()).drop_last(),
        }
    }

    /// `panel` is turned off and joins the free panels.
    pub open spec fn released(self, panel: u16) -> Board {
        Board { display: self.display.remove(panel), available: self.available.push(panel) }
    }

    /// What finding `resource` leaves: nothing changes if it is shown already, else it takes the
    /// free panel at `pick`.
    pub open spec fn discovered(self, resource: ResourceView, pick: int) -> Board {
        if self.shows(resource) {
            self
        } else {
            self.placed(pick, resource)
        }
    }

    /// The resources are found one after the other, the one at `k` with the pick at `k`.
    pub open spec fn discovered_all(self, resources: Seq<ResourceView>, picks: Seq<int>) -> Board
        decreases resources.len(),
    {
        if resources.len() == 0 {
            self
        } else {
            self.discovered_all(resources.drop_last(), picks.drop_last()).discovered(
                resources.last(),
                picks.last(),
            )
        }
    }

    /// The panels that are lit on the way, each with its resource.
    pub open spec fn found_all(self, resources: Seq<ResourceView>, picks: Seq<int>) -> Seq<
        (u16, ResourceView),
    >
        decreases resources.len(),
    {
        if resources.len() == 0 {
            Seq::empty()
        } else {
            let before = self.discovered_all(resources.drop_last(), picks.drop_last());
            let found = self.found_all(resources.drop_last(), picks.drop_last());
            if before.shows(resources.last()) {
                found
            } else {
                found.push((before.available[picks.last()], resources.last()))
            }
        }
    }

    /// There is a pick for each resource, and it names a free panel wherever one is taken.
    pub open spec fn picks_fit(self, resources: Seq<ResourceView>, picks: Seq<int>) -> bool
        decreases resources.len(),
    {
        &&& picks.len() == resources.len()
        &&& resources.len() > 0 ==> {
            let before = self.discovered_all(resources.drop_last(), picks.drop_last());
            &&& self.picks_fit(resources.drop_last(), picks.drop_last())
            &&& before.shows(resources.last()) || 0 <= picks.last() < before.available.len()
        }
    }

    /// Whatever panels are picked, one is free for each resource that needs one.
    pub open spec fn room(self, resources: Seq<ResourceView>) -> bool
        decreases resources.len(),
    {
        resources.len() > 0 ==> if self.shows(resources.first()) {
            self.room(resources.drop_first())
        } else {
            &&& self.available.len() > 0
            &&& forall|pick: int|
                0 <= pick < self.available.len() ==> (#[trigger] self.placed(
                    pick,
                    resources.first(),
                )).room(resources.drop_first())
        }
    }

    /// No panel is held twice, neither among the free ones nor both free and lit.
    pub open spec fn separated(self) -> bool {
        &&& self.available.no_duplicates()
        &&& forall|i: int|
            0 <= i < self.available.len() ==> !self.display.contains_key(
                #[trigger] self.available[i],
            )
    }

    /// No panel is held twice, and no resource is shown twice.
    pub open spec fn inv(self) -> bool {
        &&& self.separated()
        &&& self.display.is_injective()
    }

    /// All panels, lit or free.
    pub open spec fn panels(self) -> Set<u16> {
        self.display.dom().union(self.available.to_set())
    }
}

/// One resource was looked at: `after` is what `pick` makes of `before`, and `panel` is the panel
/// that was lit, if one was.
pub open spec fn discovery(
    before: Board,
    resource: ResourceView,
    pick: int,
    after: Board,
    panel: Option<u16>,
) -> bool {
    &&& before.shows(resource) || 0 <= pick < before.available.len()
    &&& after == before.discovered(resource, pick)
    &&& panel == if before.shows(resource) {
        None
    } else {
        Some(before.available[pick])
    }
}

/// A list of resources was looked at: `after` is what `picks` make of `before`, and `found` names
/// the panels that were lit.
pub open spec fn discoveries(
    before: Board,
    resources: Seq<ResourceView>,
    picks: Seq<int>,
    after: Board,
    found: Seq<(u16, ResourceView)>,
) -> bool {
    &&& before.picks_fit(resources, picks)
    &&& after == before.discovered_all(resources, picks)
    &&& found == before.found_all(resources, picks)
}

/// A list of resources was looked at in order, up to the first that found no free panel, if one
/// did: `missed` is that one, and there is a pick for each resource before it.
pub open spec fn swept(
    before: Board,
    resources: Seq<ResourceView>,
    picks: Seq<int>,
    after: Board,
    found: Seq<(u16, ResourceView)>,
    missed: Option<ResourceView>,
) -> bool {
    &&& picks.len() <= resources.len()
    &&& discoveries(before, resources.take(picks.len() as int), picks, after, found)
    &&& match missed {
        None => picks.len() == resources.len(),
        Some(resource) => {
            &&& picks.len() < resources.len()
            &&& resource == resources[picks.len() as int]
            &&& after.lacks_panel(resource)
        },
    }
}

/// The view of a resource that may be missing.
pub open spec fn option_view(resource: Option<AWSResource>) -> Option<ResourceView> {
    match resource {
        Some(resource) => Some(resource@),
        None => None,
    }
}

/// The resources of a list by their views.
pub open spec fn resources_view(resources: Seq<AWSResource>) -> Seq<ResourceView> {
    resources.map_values(|resource: AWSResource| resource@)
}

/// Lights the free panel at `pick` for `resource`, and says which panel that is.
pub fn place_at(
    display: &mut Display,
    available: &mut Vec<u16>,
    resource: &AWSResource,
    pick: usize,
) -> (panel: u16)
    requires
        old(display).wf(),
        pick < old(available).len(),
    ensures
        final(display).wf(),
        board(*final(display), *final(available)) == board(*old(display), *old(available)).placed(
            pick as int,
            resource@,
        ),
        panel == old(available)@[pick as int],
        final(display)@.contains_key(panel) && final(display)@[panel] == resource@,
        final(available)@.len() == old(available)@.len() - 1,
{
    let panel = available.swap_remove(pick);
    display.insert(panel, resource);
    panel
}

/// Whether `resource` needs a panel and none is free.
pub fn lacks_panel(display: &Display, available: &Vec<u16>, resource: &AWSResource) -> (lacks: bool)
    requires
        display.wf(),
    ensures
        lacks == board(*display, *available).lacks_panel(resource@),
{
    available.len() == 0 && !display.contains_right(resource)
}

/// Lights a free panel for `resource`, picked by chance, unless the resource is shown already.
pub fn discover(
    display: &mut Display,
    available: &mut Vec<u16>,
    resource: &AWSResource,
) -> (panel: Option<u16>)
    requires
        old(display).wf(),
        !board(*old(display), *old(available)).lacks_panel(resource@),
    ensures
        final(display).wf(),
        exists|pick: int|
            #[trigger] discovery(
                board(*old(display), *old(available)),
                resource@,
                pick,
                board(*final(display), *final(available)),
                panel,
            ),
        final(display)@.contains_value(resource@),
        panel is None <==> old(display)@.contains_value(resource@),
        panel matches Some(lit) ==> old(available)@.contains(lit) && final(display)@.contains_key(
            lit,
        ) && final(display)@[lit] == resource@,
{
    let ghost before = board(*display, *available);
    if display.contains_right(resource) {
        assert(discovery(before, resource@, 0, board(*display, *available), None));
        None
    } else {
        let pick = random_index(available.len());
        let panel = place_at(display, available, resource, pick);
        assert(discovery(
            before,
            resource@,
            pick as int,
            board(*display, *available),
            Some(panel),
        ));
        assert(display@.contains_key(panel) && display@[panel] == resource@);
        Some(panel)
    }
}

/// Looks at the resources in order and lights a free panel, picked by chance, for each that is
/// not shown yet. Says which panels were lit, and for what. Stops at the first resource that needs
/// a panel when none is free, and gives it back. Where there is room for the list that does not
/// happen; where a panel is held twice, chance can decide whether it happens.
pub fn discover_all(
    display: &mut Display,
    available: &mut Vec<u16>,
    resources: &Vec<AWSResource>,
) -> (outcome: (Vec<(u16, AWSResource)>, Option<AWSResource>))
    requires
        old(display).wf(),
    ensures
        final(display).wf(),
        exists|picks: Seq<int>|
            #[trigger] swept(
                board(*old(display), *old(available)),
                resources_view(resources@),
                picks,
                board(*final(display), *final(available)),
                pairs_view(outcome.0@),
                option_view(outcome.1),
            ),
        board(*old(display), *old(available)).room(resources_view(resources@))
            ==> outcome.1 is None,
        resources.len() <= old(available).len() ==> outcome.1 is None,
{
    let ghost before = board(*display, *available);
    let ghost all = resources_view(resources@);
    proof {
        if resources.len() <= available.len() {
            law_room_for_entries(before, all);
        }
    }
    let mut found: Vec<(u16, AWSResource)> = Vec::new();
    let ghost mut picks: Seq<int> = Seq::empty();
    let mut i: usize = 0;
    assert(all.skip(0) =~= all);
    assert(pairs_view(found@) =~= Seq::empty());
    while i < resources.len()
        invariant
            0 <= i <= resources.len(),
            all == resources_view(resources@),
            before == board(*old(display), *old(available)),
            resources.len() <= old(available).len() ==> before.room(all),
            display.wf(),
            discoveries(
                before,
                all.take(i as int),
                picks,
                board(*display, *available),
                pairs_view(found@),
            ),
            before.room(all) ==> board(*display, *available).room(all.skip(i as int)),
        decreases resources.len() - i,
    {
        let resource = &resources[i];
        let ghost current = board(*display, *available);
        let ghost rest = all.skip(i as int);
        let ghost found_before = found@;
        assert(rest.first() == resource@);
        assert(rest.drop_first() =~= all.skip(i + 1));
        if lacks_panel(display, available, resource) {
            let outcome = (found, Some(resource.clone()));
            assert(swept(
                before,
                all,
                picks,
                board(*display, *available),
                pairs_view(outcome.0@),
                option_view(outcome.1),
            ));
            return outcome;
        }
        let panel = discover(display, available, resource);
        let ghost pick = choose|pick: int|
            #[trigger] discovery(current, resource@, pick, board(*display, *available), panel);
        if let Some(lit) = panel {
            found.push((lit, resource.clone()));
            assert(pairs_view(found@) =~= pairs_view(found_before).push((lit, resource@)));
        }
        proof {
            if before.room(all) && !current.shows(resource@) {
                assert(current.placed(pick, rest.first()).room(rest.drop_first()));
            }
            let next = picks.push(pick);
            assert(next.drop_last() =~= picks);
            assert(all.take(i + 1).drop_last() =~= all.take(i as int));
            assert(all.take(i + 1).last() == resource@);
            picks = next;
        }
        i += 1;
    }
    let outcome = (found, None);
    assert(swept(
        before,
        all,
        picks,
        board(*display, *available),
        pairs_view(outcome.0@),
        option_view(outcome.1),
    ));
    outcome
}

/// Turns `panel` off and lists it among the free panels.
pub fn release(display: &mut Display, available: &mut Vec<u16>, panel: u16)
    requires
        old(display).wf(),
    ensures
        final(display).wf(),
        board(*final(display), *final(available)) == board(*old(display), *old(available)).released(
            panel,
        ),
        final(display)@ == old(display)@.remove(panel),
        final(available)@ == old(available)@.push(panel),
{
    display.remove_by_left(panel);
    available.push(panel);
}

/// A resource is shown exactly if some lit panel stands for it, and it lacks a panel exactly if none
/// does and none is free.
pub proof fn law_shows(state: Board, resource: ResourceView)
    ensures
        state.shows(resource) <==> exists|panel: u16|
            state.display.contains_key(panel) && #[trigger] state.display[panel] == resource,
        state.lacks_panel(resource) <==> state.available.len() == 0 && forall|panel: u16|
            state.display.contains_key(panel) ==> #[trigger] state.display[panel] != resource,
{
}

/// Lighting a free panel, on any board. The panel stands for the resource, which no other panel
/// stands for; every other panel is as it was. The panel is taken from the free ones once, and no
/// other is.
pub proof fn law_placed(before: Board, pick: int, resource: ResourceView)
    requires
        0 <= pick < before.available.len(),
    ensures
        ({
            let after = before.placed(pick, resource);
            let panel = before.available[pick];
            &&& after.display.contains_key(panel)
            &&& after.display[panel] == resource
            &&& forall|p: u16|
                p != panel ==> (#[trigger] after.display.contains_key(p)
                    <==> before.display.contains_key(p) && before.display[p] != resource)
            &&& forall|p: u16|
                p != panel && #[trigger] after.display.contains_key(p) ==> after.display[p]
                    == before.display[p]
            &&& after.available.len() == before.available.len() - 1
            &&& after.available.to_multiset().insert(panel) == before.available.to_multiset()
        }),
{
    broadcast use vstd::seq_lib::group_to_multiset_ensures;

    let free = before.available;
    let panel = free[pick];
    let after = before.placed(pick, resource);
    assert(free =~= free.drop_last().push(free.last()));
    if pick == free.len() - 1 {
        assert(after.available =~= free.drop_last());
    } else {
        assert(after.available =~= free.drop_last().update(pick, free.last()));
        vstd::seq_lib::to_multiset_update(free.drop_last(), pick, free.last());
    }
    assert(after.available.to_multiset().insert(panel) =~= free.to_multiset());
}

/// Turning a panel off, on any board. The panel stands for nothing and is the last of the free ones;
/// every other panel is as it was, lit or free.
pub proof fn law_released(before: Board, panel: u16)
    ensures
        ({
            let after = before.released(panel);
            &&& forall|p: u16| #[trigger]
                after.display.contains_key(p) <==> before.display.contains_key(p) && p != panel
            &&& forall|p: u16| #[trigger]
                after.display.contains_key(p) ==> after.display[p] == before.display[p]
            &&& after.available.len() == before.available.len() + 1
            &&& after.available.last() == panel
            &&& forall|i: int|
                0 <= i < before.available.len() ==> #[trigger] after.available[i]
                    == before.available[i]
        }),
{
}

/// A look at a resource, on any board. What is shown already changes nothing. What is not takes one
/// of the free panels, which then stands for it, and all other lit panels are as they were.
pub proof fn law_look(
    before: Board,
    resource: ResourceView,
    pick: int,
    after: Board,
    panel: Option<u16>,
)
    requires
        discovery(before, resource, pick, after, panel),
    ensures
        before.display.contains_value(resource) ==> panel is None && after == before,
        !before.display.contains_value(resource) ==> {
            &&& panel is Some
            &&& before.available.contains(panel->0)
            &&& after.display == before.display.insert(panel->0, resource)
            &&& after.available.to_multiset().insert(panel->0) == before.available.to_multiset()
        },
{
    if !before.display.contains_value(resource) {
        law_placed(before, pick, resource);
        assert(before.available[pick] == panel->0);
        assert forall|p: u16| before.display.contains_key(p) implies #[trigger] before.display[p]
            != resource by {
            if before.display[p] == resource {
                assert(before.display.contains_value(resource));
            }
        }
        assert(after.display =~= before.display.insert(panel->0, resource));
    }
}

/// A resource of a list is the resource in its place.
pub proof fn law_resources_view(resources: Seq<AWSResource>)
    ensures
        resources_view(resources).len() == resources.len(),
        forall|i: int|
            0 <= i < resources.len() ==> #[trigger] resources_view(resources)[i] == resources[i]@,
        forall|r: AWSResource| #[trigger] option_view(Some(r)) == Some(r@),
        option_view(None) is None,
{
}

/// The board is the display and the free panels as they are.
pub proof fn law_board(display: Display, available: Vec<u16>)
    ensures
        board(display, available).display == display@,
        board(display, available).available == available@,
{
}

} // verus!
