//! Frames: the text that tells the controller how to light its panels.

use crate::display::pairs_view;
use crate::panel::{lights, Panels, ShapeType};
use crate::resource::{AWSResource, ResourceView};
use crate::text::{decimal, push_decimal};
use vstd::prelude::*;
use vstd::string::StringExecFns;

verus! {

/// The color of a panel that is off.
pub open spec fn dark() -> Seq<char> {
    "0 0 0 0"@
}

/// A panel that takes on one color over twenty tenths of a second.
pub open spec fn cell(panel: u16, color: Seq<char>) -> Seq<char> {
    " "@ + decimal(panel as nat) + " 1 "@ + color + " 20"@
}

/// The cells one after the other.
pub open spec fn cells_text(cells: Seq<(u16, Seq<char>)>) -> Seq<char>
    decreases cells.len(),
{
    if cells.len() == 0 {
        Seq::empty()
    } else {
        cells_text(cells.drop_last()) + cell(cells.last().0, cells.last().1)
    }
}

/// A frame: the number of panels, then a cell for each.
pub open spec fn frame(panel_count: u16, cells: Seq<(u16, Seq<char>)>) -> Seq<char> {
    decimal(panel_count as nat) + cells_text(cells)
}

/// The cells of lit panels, each in the color of its resource.
pub open spec fn lit_cells(order: Seq<(u16, ResourceView)>) -> Seq<(u16, Seq<char>)> {
    order.map_values(|pair: (u16, ResourceView)| (pair.0, pair.1.color()))
}

/// The cells of panels that are off.
pub open spec fn dark_cells(panels: Seq<u16>) -> Seq<(u16, Seq<char>)> {
    panels.map_values(|panel: u16| (panel, dark()))
}

/// The cells of a board: the lit panels in the order of a listing, then the free ones.
pub open spec fn board_cells(order: Seq<(u16, ResourceView)>, available: Seq<u16>) -> Seq<
    (u16, Seq<char>),
> {
    lit_cells(order) + dark_cells(available)
}

fn push_cell(text: &mut String, panel: u16, color: &str)
    ensures
        final(text)@ == old(text)@ + cell(panel, color@),
{
    let ghost before = text@;
    text.append(" ");
    push_decimal(text, panel);
    text.append(" 1 ");
    text.append(color);
    text.append(" 20");
    assert(text@ =~= before + cell(panel, color@));
}

proof fn lemma_cells_push(cells: Seq<(u16, Seq<char>)>, panel: u16, color: Seq<char>)
    ensures
        cells_text(cells.push((panel, color))) == cells_text(cells) + cell(panel, color),
{
    assert(cells.push((panel, color)).drop_last() =~= cells);
}

/// Appends a cell to a frame.
fn extend_frame(
    text: &mut String,
    panel: u16,
    color: &str,
    Ghost(panel_count): Ghost<u16>,
    Ghost(cells): Ghost<Seq<(u16, Seq<char>)>>,
)
    requires
        old(text)@ == frame(panel_count, cells),
    ensures
        final(text)@ == frame(panel_count, cells.push((panel, color@))),
{
    push_cell(text, panel, color);
    proof {
        lemma_cells_push(cells, panel, color@);
    }
    assert(text@ =~= frame(panel_count, cells.push((panel, color@))));
}

/// The frame with which the panels are turned off at the start. Every panel that gives light
/// joins the free panels, in the order of the layout.
pub fn initialize_panels(panel_count: u16, panels: &Panels, available: &mut Vec<u16>) -> (data:
    String)
    ensures
        data@ == frame(
            panel_count,
            dark_cells(lights(panels.panel_layout.layout.position_data@)),
        ),
        final(available)@ == old(available)@ + lights(panels.panel_layout.layout.position_data@),
{
    let position_data = &panels.panel_layout.layout.position_data;
    let ghost before = available@;
    let mut data = String::new();
    push_decimal(&mut data, panel_count);
    let mut i: usize = 0;
    proof {
        reveal(Seq::filter);
        assert(lights(position_data@.take(0)) =~= Seq::empty());
        assert(data@ =~= frame(panel_count, dark_cells(lights(position_data@.take(0)))));
        assert(available@ =~= before + lights(position_data@.take(0)));
    }
    while i < position_data.len()
        invariant
            0 <= i <= position_data.len(),
            data@ == frame(panel_count, dark_cells(lights(position_data@.take(i as int)))),
            available@ == before + lights(position_data@.take(i as int)),
        decreases position_data.len() - i,
    {
        let panel = &position_data[i];
        let ghost seen = lights(position_data@.take(i as int));
        proof {
            reveal(Seq::filter);
            assert(position_data@.take(i + 1).drop_last() =~= position_data@.take(i as int));
        }
        if panel.shape_type != ShapeType::ShapesController {
            extend_frame(
                &mut data,
                panel.panel_id,
                "0 0 0 0",
                Ghost(panel_count),
                Ghost(dark_cells(seen)),
            );
            available.push(panel.panel_id);
            proof {
                assert(lights(position_data@.take(i + 1)) =~= seen.push(panel.panel_id));
                assert(dark_cells(seen.push(panel.panel_id)) =~= dark_cells(seen).push(
                    (panel.panel_id, dark()),
                ));
            }
        } else {
            assert(lights(position_data@.take(i + 1)) =~= seen);
        }
        i += 1;
    }
    assert(position_data@.take(i as int) =~= position_data@);
    data
}

/// The frame of a listing of lit panels and the free panels: first the lit ones, each in the
/// color of its service, then the free ones, which are off.
pub fn draw(panel_count: u16, order: &Vec<(u16, AWSResource)>, available: &Vec<u16>) -> (data:
    String)
    ensures
        data@ == frame(panel_count, board_cells(pairs_view(order@), available@)),
{
    let ghost lit = lit_cells(pairs_view(order@));
    let ghost off = dark_cells(available@);
    let mut data = String::new();
    push_decimal(&mut data, panel_count);
    assert(data@ =~= frame(panel_count, lit.take(0)));
    let mut i: usize = 0;
    while i < order.len()
        invariant
            0 <= i <= order.len(),
            lit == lit_cells(pairs_view(order@)),
            data@ == frame(panel_count, lit.take(i as int)),
        decreases order.len() - i,
    {
        let color = order[i].1.color();
        extend_frame(
            &mut data,
            order[i].0,
            color,
            Ghost(panel_count),
            Ghost(lit.take(i as int)),
        );
        assert(lit.take(i + 1) =~= lit.take(i as int).push((order[i as int].0, color@)));
        i += 1;
    }
    assert(lit.take(i as int) =~= lit + off.take(0));
    let mut j: usize = 0;
    while j < available.len()
        invariant
            0 <= j <= available.len(),
            off == dark_cells(available@),
            data@ == frame(panel_count, lit + off.take(j as int)),
        decreases available.len() - j,
    {
        extend_frame(
            &mut data,
            available[j],
            "0 0 0 0",
            Ghost(panel_count),
            Ghost(lit + off.take(j as int)),
        );
        assert(lit + off.take(j + 1) =~= (lit + off.take(j as int)).push(
            (available[j as int], dark()),
        ));
        j += 1;
    }
    assert(off.take(j as int) =~= off);
    data
}

/// The color of a panel that is off is no red, no green, no blue and no white.
pub proof fn law_dark()
    ensures
        dark() == seq!['0', ' ', '0', ' ', '0', ' ', '0'],
{
    reveal_strlit("0 0 0 0");
    assert("0 0 0 0"@ =~= seq!['0', ' ', '0', ' ', '0', ' ', '0']);
}

/// A frame without cells is the number of panels. One more cell adds the panel, one step, the color
/// and the time of that step at the end, each after a space.
pub proof fn law_frame_push(
    panel_count: u16,
    cells: Seq<(u16, Seq<char>)>,
    panel: u16,
    color: Seq<char>,
)
    ensures
        frame(panel_count, Seq::empty()) == decimal(panel_count as nat),
        frame(panel_count, cells.push((panel, color))) == frame(panel_count, cells) + seq![' ']
            + decimal(panel as nat) + seq![' ', '1', ' '] + color + seq![' ', '2', '0'],
{
    reveal_strlit(" ");
    reveal_strlit(" 1 ");
    reveal_strlit(" 20");
    assert(" "@ =~= seq![' ']);
    assert(" 1 "@ =~= seq![' ', '1', ' ']);
    assert(" 20"@ =~= seq![' ', '2', '0']);
    assert(frame(panel_count, Seq::empty()) =~= decimal(panel_count as nat));
    lemma_cells_push(cells, panel, color);
    assert(frame(panel_count, cells.push((panel, color))) =~= frame(panel_count, cells) + seq![' ']
        + decimal(panel as nat) + seq![' ', '1', ' '] + color + seq![' ', '2', '0']);
}

/// The cells of a board: one for each lit panel of the listing, in its place and with the color of
/// the service that its resource belongs to, and then one for each free panel, in its place and off.
pub proof fn law_board_cells(order: Seq<(u16, ResourceView)>, available: Seq<u16>)
    ensures
        board_cells(order, available).len() == order.len() + available.len(),
        forall|i: int|
            0 <= i < order.len() ==> (#[trigger] board_cells(order, available)[i]).0 == order[i].0
                && board_cells(order, available)[i].1 == match order[i].1 {
                ResourceView::Instance(_) => "247 142 4 0"@,
                ResourceView::Table(_) => "77 114 243 0"@,
                ResourceView::Bucket(_) => "96 163 55 0"@,
            },
        forall|i: int|
            order.len() <= i < order.len() + available.len() ==> #[trigger] board_cells(
                order,
                available,
            )[i] == (available[i - order.len()], "0 0 0 0"@),
{
}

/// The cells of panels that are off: one for each panel, in its place.
pub proof fn law_dark_cells(panels: Seq<u16>)
    ensures
        dark_cells(panels).len() == panels.len(),
        forall|i: int|
            0 <= i < panels.len() ==> #[trigger] dark_cells(panels)[i] == (panels[i], "0 0 0 0"@),
{
}

} // verus!
