//! The display: which lit panel stands for which resource.
//!
//! The pairs are held in a two-way map of the `bimap` crate. Its right values are pairs of a
//! service tag and a text, so that the equality and the hash that the map works with are those
//! that the standard library gives to tuples, integers and strings.

use crate::resource::{AWSResource, ResourceView};
use bimap::BiHashMap;
use vstd::prelude::*;

verus! {

const INSTANCE: u8 = 0;

const TABLE: u8 = 1;

const BUCKET: u8 = 2;

/// `bimap::BiHashMap`, a two-way hash map. Nothing is claimed of it here.
#[verifier::external_type_specification]
#[verifier::external_body]
#[verifier::reject_recursive_types(L)]
#[verifier::reject_recursive_types(R)]
#[verifier::reject_recursive_types(LS)]
#[verifier::reject_recursive_types(RS)]
pub struct ExBiHashMap<L, R, LS, RS>(BiHashMap<L, R, LS, RS>);

/// The pairs that a `bimap::BiHashMap` holds, each from its left value to its right value.
pub uninterp spec fn pairs(map: BiHashMap<u16, (u8, String)>) -> Map<u16, (u8, Seq<char>)>;

/// What putting the pair of `left` and `right` into `map` leaves: every pair that held either of
/// them is gone, and the new pair is there.
pub open spec fn overwrite<R>(map: Map<u16, R>, left: u16, right: R) -> Map<u16, R> {
    Map::new(|key: u16| map.contains_key(key) && map[key] != right, |key: u16| map[key]).insert(
        left,
        right,
    )
}

/// `order` names every pair of `map` once, in some order.
pub open spec fn lists<R>(order: Seq<(u16, R)>, map: Map<u16, R>) -> bool {
    &&& forall|i: int|
        0 <= i < order.len() ==> map.contains_key((#[trigger] order[i]).0) && map[order[i].0]
            == order[i].1
    &&& forall|i: int, j: int|
        0 <= i < j < order.len() ==> (#[trigger] order[i]).0 != (#[trigger] order[j]).0
    &&& forall|key: u16| #[trigger]
        map.contains_key(key) ==> exists|i: int|
            0 <= i < order.len() && (#[trigger] order[i]).0 == key
}

/// `BiHashMap::new`: a map without pairs.
#[verifier::external_body]
fn bimap_new() -> (fresh: BiHashMap<u16, (u8, String)>)
    ensures
        (pairs(fresh) == Map::<u16, (u8, Seq<char>)>::empty()),
{
    BiHashMap::new()
}

/// `BiHashMap::get_by_left`: the right value that is paired with `left`, if there is one.
#[verifier::external_body]
fn bimap_get_by_left(map: &BiHashMap<u16, (u8, String)>, left: u16) -> (right: Option<
    &(u8, String),
>)
    ensures
        right is Some <==> pairs(*map).contains_key(left),
        right matches Some(r) ==> (r.0, r.1@) == pairs(*map)[left],
{
    map.get_by_left(&left)
}

/// `BiHashMap::contains_right`: whether some pair holds `right`.
#[verifier::external_body]
fn bimap_contains_right(map: &BiHashMap<u16, (u8, String)>, right: &(u8, String)) -> (found: bool)
    ensures
        found == pairs(*map).contains_value((right.0, right.1@)),
{
    map.contains_right(right)
}

/// `BiHashMap::insert`: the pairs that held `left` or `right` are removed, and the two are
/// paired. What `insert` reports of the removed pairs is dropped.
#[verifier::external_body]
fn bimap_insert(map: &mut BiHashMap<u16, (u8, String)>, left: u16, right: (u8, String))
    ensures
        pairs(*final(map)) == overwrite(pairs(*old(map)), left, (right.0, right.1@)),
{
    map.insert(left, right);
}

/// `BiHashMap::remove_by_left`: the pair that holds `left` is taken out, if there is one. The
/// pair that `remove_by_left` gives back is dropped.
#[verifier::external_body]
fn bimap_remove_by_left(map: &mut BiHashMap<u16, (u8, String)>, left: u16)
    ensures
        pairs(*final(map)) == pairs(*old(map)).remove(left),
{
    map.remove_by_left(&left);
}

/// `BiHashMap::iter`: every pair once. The order is that of a hash map, and nothing is said of
/// it.
#[verifier::external_body]
fn bimap_iter(map: &BiHashMap<u16, (u8, String)>) -> (order: Vec<(u16, (u8, String))>)
    ensures
        lists(
            order@.map_values(|pair: (u16, (u8, String))| (pair.0, (pair.1.0, pair.1.1@))),
            pairs(*map),
        ),
{
    map.iter().map(|(left, right)| (*left, right.clone())).collect()
}

/// The tagged text that stands for a resource in the two-way map.
spec fn encode(resource: ResourceView) -> (u8, Seq<char>) {
    match resource {
        ResourceView::Instance(id) => (INSTANCE, id),
        ResourceView::Table(name) => (TABLE, name),
        ResourceView::Bucket(name) => (BUCKET, name),
    }
}

/// The resource that a tagged text stands for.
spec fn decode(tagged: (u8, Seq<char>)) -> ResourceView {
    if tagged.0 == INSTANCE {
        ResourceView::Instance(tagged.1)
    } else if tagged.0 == TABLE {
        ResourceView::Table(tagged.1)
    } else {
        ResourceView::Bucket(tagged.1)
    }
}

fn encode_resource(resource: &AWSResource) -> (tagged: (u8, String))
    ensures
        (tagged.0, tagged.1@) == encode(resource@),
{
    match resource {
        AWSResource::Instance(id) => (INSTANCE, id.clone()),
        AWSResource::Table(name) => (TABLE, name.clone()),
        AWSResource::Bucket(name) => (BUCKET, name.clone()),
    }
}

fn decode_resource(tagged: &(u8, String)) -> (resource: AWSResource)
    ensures
        resource@ == decode((tagged.0, tagged.1@)),
{
    if tagged.0 == INSTANCE {
        AWSResource::Instance(tagged.1.clone())
    } else if tagged.0 == TABLE {
        AWSResource::Table(tagged.1.clone())
    } else {
        AWSResource::Bucket(tagged.1.clone())
    }
}

/// The pairs of a listing, each resource by its view.
pub open spec fn pairs_view(order: Seq<(u16, AWSResource)>) -> Seq<(u16, ResourceView)> {
    order.map_values(|pair: (u16, AWSResource)| (pair.0, pair.1@))
}

/// The lit panels, each with the resource that it stands for.
pub struct Display {
    map: BiHashMap<u16, (u8, String)>,
}

impl View for Display {
    type V = Map<u16, ResourceView>;

    closed spec fn view(&self) -> Map<u16, ResourceView> {
        pairs(self.map).map_values(|tagged: (u8, Seq<char>)| decode(tagged))
    }
}

impl Display {
    /// Every tag is that of a service, and no resource is shown on two panels.
    pub closed spec fn wf(self) -> bool {
        &&& forall|panel: u16| #[trigger]
            pairs(self.map).contains_key(panel) ==> pairs(self.map)[panel].0 <= BUCKET
        &&& pairs(self.map).is_injective()
    }

    /// A display on which no panel is lit.
    pub fn new() -> (display: Self)
        ensures
            display.wf(),
            (display@ == Map::<u16, ResourceView>::empty()),
    {
        let display = Display { map: bimap_new() };
        assert(display@ =~= Map::<u16, ResourceView>::empty());
        display
    }

    /// The resource that `panel` stands for, if the panel is lit.
    pub fn get_by_left(&self, panel: u16) -> (resource: Option<AWSResource>)
        ensures
            resource is Some <==> self@.contains_key(panel),
            resource matches Some(r) ==> r@ == self@[panel],
    {
        match bimap_get_by_left(&self.map, panel) {
            Some(tagged) => Some(decode_resource(tagged)),
            None => None,
        }
    }

    /// Whether some panel stands for `resource`.
    pub fn contains_right(&self, resource: &AWSResource) -> (shown: bool)
        requires
            self.wf(),
        ensures
            shown == self@.contains_value(resource@),
    {
        let tagged = encode_resource(resource);
        let shown = bimap_contains_right(&self.map, &tagged);
        proof {
            let raw = pairs(self.map);
            if shown {
                let panel = choose|panel: u16|
                    raw.contains_key(panel) && #[trigger] raw[panel] == encode(resource@);
                assert(self@.contains_key(panel) && self@[panel] == resource@);
            }
            if self@.contains_value(resource@) {
                let panel = choose|panel: u16|
                    self@.contains_key(panel) && #[trigger] self@[panel] == resource@;
                assert(raw.contains_key(panel) && raw[panel] == encode(resource@));
            }
        }
        shown
    }

    /// Lights `panel` for `resource`. A panel that stood for the resource before goes dark, and
    /// so does what `panel` stood for before.
    pub fn insert(&mut self, panel: u16, resource: &AWSResource)
        requires
            old(self).wf(),
        ensures
            final(self).wf(),
            final(self)@ == overwrite(old(self)@, panel, resource@),
    {
        let tagged = encode_resource(resource);
        bimap_insert(&mut self.map, panel, tagged);
        assert(self@ =~= overwrite(old(self)@, panel, resource@));
    }

    /// Turns `panel` off.
    pub fn remove_by_left(&mut self, panel: u16)
        requires
            old(self).wf(),
        ensures
            final(self).wf(),
            final(self)@ == old(self)@.remove(panel),
    {
        bimap_remove_by_left(&mut self.map, panel);
        assert(self@ =~= old(self)@.remove(panel));
    }

    /// Every lit panel once, with its resource, in an order that nothing is said of.
    pub fn iter(&self) -> (order: Vec<(u16, AWSResource)>)
        ensures
            lists(pairs_view(order@), self@),
    {
        let tagged = bimap_iter(&self.map);
        let ghost raw = tagged@.map_values(
            |pair: (u16, (u8, String))| (pair.0, (pair.1.0, pair.1.1@)),
        );
        let mut order: Vec<(u16, AWSResource)> = Vec::new();
        let mut i: usize = 0;
        while i < tagged.len()
            invariant
                0 <= i <= tagged.len(),
                order.len() == i,
                raw == tagged@.map_values(
                    |pair: (u16, (u8, String))| (pair.0, (pair.1.0, pair.1.1@)),
                ),
                forall|j: int|
                    0 <= j < i ==> (#[trigger] order[j]).0 == raw[j].0 && order[j].1@ == decode(
                        raw[j].1,
                    ),
            decreases tagged.len() - i,
        {
            order.push((tagged[i].0, decode_resource(&tagged[i].1)));
            i += 1;
        }
        proof {
            assert forall|panel: u16| #[trigger] self@.contains_key(panel) implies exists|k: int|
                0 <= k < order.len() && (#[trigger] pairs_view(order@)[k]).0 == panel by {
                assert(pairs(self.map).contains_key(panel));
                let k = choose|k: int| 0 <= k < raw.len() && (#[trigger] raw[k]).0 == panel;
                assert(pairs_view(order@)[k].0 == panel);
            }
        }
        order
    }

    /// The display holds each resource on one panel at most.
    pub proof fn law_injective(self)
        requires
            self.wf(),
        ensures
            self@.is_injective(),
    {
        assert forall|a: u16, b: u16|
            a != b && self@.dom().contains(a) && self@.dom().contains(
                b,
            ) implies #[trigger] self@[a] != #[trigger] self@[b] by {
            assert(pairs(self.map)[a] != pairs(self.map)[b]);
        }
    }
}

/// What a new pair leaves: the panel stands for the new resource, which no other panel stands for,
/// and every other pair is as it was.
pub proof fn law_overwrite<R>(map: Map<u16, R>, left: u16, right: R)
    ensures
        overwrite(map, left, right).contains_key(left),
        overwrite(map, left, right)[left] == right,
        forall|key: u16|
            key != left ==> (#[trigger] overwrite(map, left, right).contains_key(key)
                <==> map.contains_key(key) && map[key] != right),
        forall|key: u16|
            key != left && #[trigger] overwrite(map, left, right).contains_key(key)
                ==> overwrite(map, left, right)[key] == map[key],
{
}

/// A listing has exactly the pairs of the map, each once.
pub proof fn law_lists<R>(order: Seq<(u16, R)>, map: Map<u16, R>)
    ensures
        lists(order, map) <==> order.no_duplicates() && forall|key: u16, value: R| #[trigger]
            order.contains((key, value)) <==> map.contains_key(key) && map[key] == value,
{
    if lists(order, map) {
        assert forall|key: u16, value: R| #[trigger] order.contains(
            (key, value),
        ) <==> map.contains_key(key) && map[key] == value by {
            if order.contains((key, value)) {
                let i = choose|i: int| 0 <= i < order.len() && order[i] == (key, value);
                assert(order[i].0 == key);
            }
            if map.contains_key(key) && map[key] == value {
                let i = choose|i: int| 0 <= i < order.len() && (#[trigger] order[i]).0 == key;
                assert(order[i] == (key, value));
            }
        }
    }
    if order.no_duplicates() && forall|key: u16, value: R| #[trigger]
        order.contains((key, value)) <==> map.contains_key(key) && map[key] == value {
        assert forall|i: int| 0 <= i < order.len() implies map.contains_key(
            (#[trigger] order[i]).0,
        ) && map[order[i].0] == order[i].1 by {
            assert(order.contains((order[i].0, order[i].1)));
        }
        assert forall|i: int, j: int| 0 <= i < j < order.len() implies (#[trigger] order[i]).0 != (
        #[trigger] order[j]).0 by {
            if order[i].0 == order[j].0 {
                assert(order[i] == order[j]);
            }
        }
        assert forall|key: u16| #[trigger] map.contains_key(key) implies exists|i: int|
            0 <= i < order.len() && (#[trigger] order[i]).0 == key by {
            assert(order.contains((key, map[key])));
            let i = choose|i: int| 0 <= i < order.len() && order[i] == (key, map[key]);
            assert(order[i].0 == key);
        }
    }
}

/// A pair of a listing is the pair in its place.
pub proof fn law_pairs_view(order: Seq<(u16, AWSResource)>)
    ensures
        pairs_view(order).len() == order.len(),
        forall|i: int|
            0 <= i < order.len() ==> #[trigger] pairs_view(order)[i] == (order[i].0, order[i].1@),
{
}

} // verus!
