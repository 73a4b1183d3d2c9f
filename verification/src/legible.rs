//! Frames tell the panels and their colors: no two different frames have the same text.

use crate::frame::{board_cells, cell, cells_text, dark, frame};
use crate::resource::ResourceView;
use crate::text::{decimal, law_decimal_injective, lemma_decimal_digits};
use vstd::prelude::*;

verus! {

/// A color that a cell of a frame can have.
pub open spec fn in_palette(color: Seq<char>) -> bool {
    ||| color == dark()
    ||| exists|resource: ResourceView| color == #[trigger] resource.color()
}

/// Every cell has a color of the palette.
pub open spec fn painted(cells: Seq<(u16, Seq<char>)>) -> bool {
    forall|i: int| 0 <= i < cells.len() ==> in_palette((#[trigger] cells[i]).1)
}

/// The cells of a board have colors of the palette.
pub proof fn law_board_painted(order: Seq<(u16, ResourceView)>, available: Seq<u16>)
    ensures
        painted(board_cells(order, available)),
{
    let cells = board_cells(order, available);
    assert forall|i: int| 0 <= i < cells.len() implies in_palette((#[trigger] cells[i]).1) by {
        if i < order.len() {
            assert(cells[i].1 == order[i].1.color());
        } else {
            assert(cells[i].1 == dark());
        }
    }
}

/// The color begins with a digit that tells it from the others.
proof fn lemma_palette(a: Seq<char>, b: Seq<char>)
    requires
        in_palette(a),
        in_palette(b),
    ensures
        a.len() > 0,
        b.len() > 0,
        a[0] == b[0] ==> a == b,
{
    reveal_strlit("0 0 0 0");
    reveal_strlit("247 142 4 0");
    reveal_strlit("77 114 243 0");
    reveal_strlit("96 163 55 0");
}

/// The three services have different colors, and none of them is dark.
pub proof fn law_colors_differ(id: Seq<char>, table: Seq<char>, bucket: Seq<char>)
    ensures
        ResourceView::Instance(id).color() != ResourceView::Table(table).color(),
        ResourceView::Instance(id).color() != ResourceView::Bucket(bucket).color(),
        ResourceView::Table(table).color() != ResourceView::Bucket(bucket).color(),
        ResourceView::Instance(id).color() != dark(),
        ResourceView::Table(table).color() != dark(),
        ResourceView::Bucket(bucket).color() != dark(),
{
    reveal_strlit("0 0 0 0");
    reveal_strlit("247 142 4 0");
    reveal_strlit("77 114 243 0");
    reveal_strlit("96 163 55 0");
    assert("247 142 4 0"@[0] == '2');
    assert("77 114 243 0"@[0] == '7');
    assert("96 163 55 0"@[0] == '9');
    assert("0 0 0 0"@[0] == '0');
}

/// A text that ends before the first space, if the rest begins with one, can be told from the rest.
proof fn lemma_split(a: Seq<char>, x: Seq<char>, b: Seq<char>, y: Seq<char>)
    requires
        a + x == b + y,
        forall|i: int| 0 <= i < a.len() ==> #[trigger] a[i] != ' ',
        forall|i: int| 0 <= i < b.len() ==> #[trigger] b[i] != ' ',
        x.len() > 0 ==> x[0] == ' ',
        y.len() > 0 ==> y[0] == ' ',
    ensures
        a == b,
        x == y,
{
    let whole = a + x;
    assert(whole == b + y);
    if a.len() < b.len() {
        assert(whole.len() == b.len() + y.len());
        assert(whole[a.len() as int] == x[0]);
        assert(whole[a.len() as int] == b[a.len() as int]);
        assert(false);
    }
    if b.len() < a.len() {
        assert(whole.len() == a.len() + x.len());
        assert(whole[b.len() as int] == y[0]);
        assert(whole[b.len() as int] == a[b.len() as int]);
        assert(false);
    }
    lemma_cancel(a, x, b, y);
}

/// Two texts of the same length at the front can be taken off.
proof fn lemma_cancel(a: Seq<char>, x: Seq<char>, b: Seq<char>, y: Seq<char>)
    requires
        a + x == b + y,
        a.len() == b.len(),
    ensures
        a == b,
        x == y,
{
    assert((a + x).take(a.len() as int) =~= a);
    assert((b + y).take(b.len() as int) =~= b);
    assert((a + x).skip(a.len() as int) =~= x);
    assert((b + y).skip(b.len() as int) =~= y);
}

/// The text of the cells begins with the first cell.
proof fn lemma_cells_front(cells: Seq<(u16, Seq<char>)>)
    requires
        cells.len() > 0,
    ensures
        cells_text(cells) == cell(cells[0].0, cells[0].1) + cells_text(cells.drop_first()),
    decreases cells.len(),
{
    if cells.len() == 1 {
        assert(cells.drop_last() =~= Seq::empty());
        assert(cells.drop_first() =~= Seq::empty());
        assert(cells_text(cells.drop_last()) =~= Seq::empty());
        assert(cells_text(cells.drop_first()) =~= Seq::empty());
        assert(cells_text(cells) =~= cell(cells[0].0, cells[0].1));
    } else {
        lemma_cells_front(cells.drop_last());
        assert(cells.drop_last().drop_first() =~= cells.drop_first().drop_last());
        let first = cell(cells[0].0, cells[0].1);
        let last = cell(cells.last().0, cells.last().1);
        let middle = cells_text(cells.drop_last().drop_first());
        assert((first + middle) + last =~= first + (middle + last));
    }
}

/// What follows the number of the panel in a cell.
spec fn tail(color: Seq<char>, rest: Seq<char>) -> Seq<char> {
    " 1 "@ + (color + (" 20"@ + rest))
}

proof fn lemma_cell_parts(panel: u16, color: Seq<char>, rest: Seq<char>)
    ensures
        cell(panel, color) + rest == " "@ + (decimal(panel as nat) + tail(color, rest)),
        tail(color, rest).len() > 0,
        tail(color, rest)[0] == ' ',
{
    reveal_strlit(" 1 ");
    assert(cell(panel, color) + rest =~= " "@ + (decimal(panel as nat) + tail(color, rest)));
    assert(" 1 "@[0] == ' ');
}

/// The text of a list of cells tells the cells.
pub proof fn law_cells_legible(a: Seq<(u16, Seq<char>)>, b: Seq<(u16, Seq<char>)>)
    requires
        painted(a),
        painted(b),
        cells_text(a) == cells_text(b),
    ensures
        a == b,
    decreases a.len(),
{
    reveal_strlit(" ");
    reveal_strlit(" 1 ");
    reveal_strlit(" 20");
    if a.len() > 0 {
        lemma_cells_front(a);
        lemma_cell_parts(a[0].0, a[0].1, cells_text(a.drop_first()));
    }
    if b.len() > 0 {
        lemma_cells_front(b);
        lemma_cell_parts(b[0].0, b[0].1, cells_text(b.drop_first()));
    }
    if a.len() == 0 || b.len() == 0 {
        assert(a =~= b);
    } else {
        let (p, c, x) = (a[0].0, a[0].1, cells_text(a.drop_first()));
        let (q, d, y) = (b[0].0, b[0].1, cells_text(b.drop_first()));
        lemma_cancel(
            " "@,
            decimal(p as nat) + tail(c, x),
            " "@,
            decimal(q as nat) + tail(d, y),
        );
        lemma_decimal_digits(p as nat);
        lemma_decimal_digits(q as nat);
        lemma_split(decimal(p as nat), tail(c, x), decimal(q as nat), tail(d, y));
        law_decimal_injective(p as nat, q as nat);
        lemma_cancel(" 1 "@, c + (" 20"@ + x), " 1 "@, d + (" 20"@ + y));
        lemma_palette(c, d);
        assert((c + (" 20"@ + x))[0] == c[0]);
        assert((d + (" 20"@ + y))[0] == d[0]);
        lemma_cancel(c, " 20"@ + x, d, " 20"@ + y);
        lemma_cancel(" 20"@, x, " 20"@, y);
        assert forall|i: int| 0 <= i < a.drop_first().len() implies in_palette(
            (#[trigger] a.drop_first()[i]).1,
        ) by {
            assert(a.drop_first()[i] == a[i + 1]);
        }
        assert forall|i: int| 0 <= i < b.drop_first().len() implies in_palette(
            (#[trigger] b.drop_first()[i]).1,
        ) by {
            assert(b.drop_first()[i] == b[i + 1]);
        }
        law_cells_legible(a.drop_first(), b.drop_first());
        assert(a =~= seq![a[0]] + a.drop_first());
        assert(b =~= seq![b[0]] + b.drop_first());
    }
}

/// The text of a frame tells the number at its head and the cells.
pub proof fn law_frame_legible(
    count_a: u16,
    a: Seq<(u16, Seq<char>)>,
    count_b: u16,
    b: Seq<(u16, Seq<char>)>,
)
    requires
        painted(a),
        painted(b),
        frame(count_a, a) == frame(count_b, b),
    ensures
        count_a == count_b,
        a == b,
{
    lemma_decimal_digits(count_a as nat);
    lemma_decimal_digits(count_b as nat);
    lemma_cells_lead(a);
    lemma_cells_lead(b);
    lemma_split(decimal(count_a as nat), cells_text(a), decimal(count_b as nat), cells_text(b));
    law_decimal_injective(count_a as nat, count_b as nat);
    law_cells_legible(a, b);
}

/// The text of the cells is empty or begins with a space.
proof fn lemma_cells_lead(cells: Seq<(u16, Seq<char>)>)
    ensures
        cells_text(cells).len() > 0 ==> cells_text(cells)[0] == ' ',
{
    reveal_strlit(" ");
    if cells.len() > 0 {
        lemma_cells_front(cells);
        lemma_cell_parts(cells[0].0, cells[0].1, cells_text(cells.drop_first()));
        assert(" "@[0] == ' ');
    }
}

} // verus!
