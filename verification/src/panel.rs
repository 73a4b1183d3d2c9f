//! What the controller reports of its panels.

use vstd::prelude::*;

verus! {

/// The shape of a panel.
#[derive(Debug, Clone, Copy, PartialEq, Eq, Structural)]
pub enum ShapeType {
    Triangle,
    Rhythm,
    Square,
    ControlSquareMaster,
    ControlSquarePassive,
    HexagonShapes,
    TriangleShapes,
    MiniTriangleShapes,
    ShapesController,
    ElementsHexagons,
    ElementsHexagonsCorner,
    LinesConnector,
    LightLines,
    LightLinesSingleZone,
    ControllerCap,
    PowerConnector,
}

impl ShapeType {
    /// The number by which the controller reports the shape.
    pub open spec fn code(self) -> u8 {
        match self {
            ShapeType::Triangle => 0,
            ShapeType::Rhythm => 1,
            ShapeType::Square => 2,
            ShapeType::ControlSquareMaster => 3,
            ShapeType::ControlSquarePassive => 4,
            ShapeType::HexagonShapes => 7,
            ShapeType::TriangleShapes => 8,
            ShapeType::MiniTriangleShapes => 9,
            ShapeType::ShapesController => 12,
            ShapeType::ElementsHexagons => 14,
            ShapeType::ElementsHexagonsCorner => 15,
            ShapeType::LinesConnector => 16,
            ShapeType::LightLines => 17,
            ShapeType::LightLinesSingleZone => 18,
            ShapeType::ControllerCap => 19,
            ShapeType::PowerConnector => 20,
        }
    }

    /// The shape that a number stands for, if it stands for one.
    pub fn from_code(code: u8) -> (shape: Option<ShapeType>)
        ensures
            shape matches Some(s) ==> s.code() == code,
            shape is None ==> forall|s: ShapeType| #[trigger] s.code() != code,
            shape is Some <==> code <= 4 || 7 <= code <= 9 || code == 12 || 14 <= code <= 20,
            shape == Some(ShapeType::ShapesController) <==> code == 12,
    {
        match code {
            0 => Some(ShapeType::Triangle),
            1 => Some(ShapeType::Rhythm),
            2 => Some(ShapeType::Square),
            3 => Some(ShapeType::ControlSquareMaster),
            4 => Some(ShapeType::ControlSquarePassive),
            7 => Some(ShapeType::HexagonShapes),
            8 => Some(ShapeType::TriangleShapes),
            9 => Some(ShapeType::MiniTriangleShapes),
            12 => Some(ShapeType::ShapesController),
            14 => Some(ShapeType::ElementsHexagons),
            15 => Some(ShapeType::ElementsHexagonsCorner),
            16 => Some(ShapeType::LinesConnector),
            17 => Some(ShapeType::LightLines),
            18 => Some(ShapeType::LightLinesSingleZone),
            19 => Some(ShapeType::ControllerCap),
            20 => Some(ShapeType::PowerConnector),
            _ => None,
        }
    }
}

/// Each shape has a number of its own.
pub proof fn law_codes_differ(a: ShapeType, b: ShapeType)
    requires
        a.code() == b.code(),
    ensures
        a == b,
{
}

/// A panel of the layout.
#[derive(Debug)]
pub struct Panel {
    pub panel_id: u16,
    pub shape_type: ShapeType,
}

/// The panels of a layout in the order in which the controller reports them.
pub type PositionData = Vec<Panel>;

/// How the panels are laid out; the controller counts itself among `num_panels`.
#[derive(Debug)]
pub struct Layout {
    pub num_panels: u16,
    pub position_data: PositionData,
}

#[derive(Debug)]
pub struct PanelLayout {
    pub layout: Layout,
}

/// What the controller reports of itself.
#[derive(Debug)]
pub struct Panels {
    pub name: String,
    pub panel_layout: PanelLayout,
}

/// The panel gives light: it is not the controller.
pub open spec fn is_light(panel: Panel) -> bool {
    panel.shape_type != ShapeType::ShapesController
}

/// The ids of the panels that give light, in the order of the layout.
pub open spec fn lights(panels: Seq<Panel>) -> Seq<u16> {
    panels.filter(|panel: Panel| is_light(panel)).map_values(|panel: Panel| panel.panel_id)
}

/// The number of panels beside the controller.
pub fn panel_count(panels: &Panels) -> (count: u16)
    requires
        panels.panel_layout.layout.num_panels >= 1,
    ensures
        count == panels.panel_layout.layout.num_panels - 1,
{
    panels.panel_layout.layout.num_panels - 1
}

/// Every panel but the controller gives light: a layout without panels has no lights, and one more
/// panel adds its id at the end, unless it is the controller.
pub proof fn law_lights(panels: Seq<Panel>, panel: Panel)
    ensures
        lights(Seq::empty()).len() == 0,
        panel.shape_type is ShapesController ==> lights(panels.push(panel)) == lights(panels),
        !(panel.shape_type is ShapesController) ==> lights(panels.push(panel)) == lights(
            panels,
        ).push(panel.panel_id),
        is_light(panel) <==> !(panel.shape_type is ShapesController),
{
    reveal(Seq::filter);
    assert(panels.push(panel).drop_last() =~= panels);
    assert(lights(Seq::empty()) =~= Seq::empty());
    if panel.shape_type is ShapesController {
        assert(lights(panels.push(panel)) =~= lights(panels));
    } else {
        assert(lights(panels.push(panel)) =~= lights(panels).push(panel.panel_id));
    }
}

/// The numbers of the shapes.
pub proof fn law_codes(shape: ShapeType)
    ensures
        shape is Triangle <==> shape.code() == 0,
        shape is Rhythm <==> shape.code() == 1,
        shape is Square <==> shape.code() == 2,
        shape is ControlSquareMaster <==> shape.code() == 3,
        shape is ControlSquarePassive <==> shape.code() == 4,
        shape is HexagonShapes <==> shape.code() == 7,
        shape is TriangleShapes <==> shape.code() == 8,
        shape is MiniTriangleShapes <==> shape.code() == 9,
        shape is ShapesController <==> shape.code() == 12,
        shape is ElementsHexagons <==> shape.code() == 14,
        shape is ElementsHexagonsCorner <==> shape.code() == 15,
        shape is LinesConnector <==> shape.code() == 16,
        shape is LightLines <==> shape.code() == 17,
        shape is LightLinesSingleZone <==> shape.code() == 18,
        shape is ControllerCap <==> shape.code() == 19,
        shape is PowerConnector <==> shape.code() == 20,
{
}

} // verus!
