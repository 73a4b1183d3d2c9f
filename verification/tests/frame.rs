use nanoleaf_aws_terminator::display::Display;
use nanoleaf_aws_terminator::frame::{draw, initialize_panels};
use nanoleaf_aws_terminator::panel::{
    panel_count, Layout, Panel, PanelLayout, Panels, ShapeType,
};
use nanoleaf_aws_terminator::resource::AWSResource;
use nanoleaf_aws_terminator::text::push_decimal;

fn report(num_panels: u16, panels: Vec<(u16, ShapeType)>) -> Panels {
    let position_data = panels
        .into_iter()
        .map(|(panel_id, shape_type)| Panel { panel_id, shape_type })
        .collect();
    Panels {
        name: "Shapes".to_string(),
        panel_layout: PanelLayout {
            layout: Layout {
                num_panels,
                position_data,
            },
        },
    }
}

/// The frame of a board.
fn draw_board(panel_count: u16, display: &Display, available: &Vec<u16>) -> String {
    draw(panel_count, &display.iter(), available)
}

#[test]
fn decimal_of_numbers() {
    for number in [0u16, 1, 9, 10, 11, 99, 100, 101, 1234, 9999, 10000, 65535] {
        let mut text = "n=".to_string();
        push_decimal(&mut text, number);
        assert_eq!(text, format!("n={}", number));
    }
}

#[test]
fn decimal_of_every_number() {
    for number in 0..=u16::MAX {
        let mut text = String::new();
        push_decimal(&mut text, number);
        assert_eq!(text, number.to_string());
    }
}

#[test]
fn count_leaves_the_controller_out() {
    assert_eq!(panel_count(&report(10, vec![])), 9);
    assert_eq!(panel_count(&report(1, vec![])), 0);
}

#[test]
fn initialize_turns_every_light_off() {
    let panels = report(
        4,
        vec![
            (100, ShapeType::HexagonShapes),
            (0, ShapeType::ShapesController),
            (200, ShapeType::TriangleShapes),
            (65535, ShapeType::MiniTriangleShapes),
        ],
    );
    let mut available = vec![];
    let count = panel_count(&panels);
    let data = initialize_panels(count, &panels, &mut available);
    assert_eq!(data, "3 100 1 0 0 0 0 20 200 1 0 0 0 0 20 65535 1 0 0 0 0 20");
    assert_eq!(available, vec![100, 200, 65535]);
}

#[test]
fn initialize_appends_to_the_free_panels() {
    let panels = report(2, vec![(5, ShapeType::Square), (6, ShapeType::ControllerCap)]);
    let mut available = vec![1];
    assert_eq!(
        initialize_panels(1, &panels, &mut available),
        "1 5 1 0 0 0 0 20 6 1 0 0 0 0 20"
    );
    assert_eq!(available, vec![1, 5, 6]);
}

#[test]
fn initialize_without_panels() {
    let panels = report(1, vec![(0, ShapeType::ShapesController)]);
    let mut available = vec![];
    assert_eq!(initialize_panels(0, &panels, &mut available), "0");
    assert!(available.is_empty());
}

#[test]
fn draw_colors_by_service() {
    let order = vec![
        (1, AWSResource::Instance("i-1".to_string())),
        (2, AWSResource::Table("t".to_string())),
        (3, AWSResource::Bucket("b".to_string())),
    ];
    assert_eq!(
        draw(5, &order, &vec![40, 50]),
        "5 1 1 247 142 4 0 20 2 1 77 114 243 0 20 3 1 96 163 55 0 20 40 1 0 0 0 0 20 50 1 0 0 0 0 20"
    );
}

#[test]
fn draw_nothing() {
    assert_eq!(draw(12, &vec![], &vec![]), "12");
}

#[test]
fn draw_board_draws_lit_and_free_panels() {
    let mut display = Display::new();
    display.insert(7, &AWSResource::Bucket("b".to_string()));
    assert_eq!(
        draw_board(2, &display, &vec![8]),
        "2 7 1 96 163 55 0 20 8 1 0 0 0 0 20"
    );
}

#[test]
fn draw_board_has_a_cell_for_every_panel() {
    let mut display = Display::new();
    display.insert(1, &AWSResource::Instance("a".to_string()));
    display.insert(2, &AWSResource::Table("b".to_string()));
    let data = draw_board(3, &display, &vec![3]);
    let one = " 1 1 247 142 4 0 20";
    let two = " 2 1 77 114 243 0 20";
    let three = " 3 1 0 0 0 0 20";
    assert!(
        data == format!("3{}{}{}", one, two, three) || data == format!("3{}{}{}", two, one, three)
    );
}

#[test]
fn colors_differ() {
    let colors = [
        AWSResource::Instance(String::new()).color(),
        AWSResource::Table(String::new()).color(),
        AWSResource::Bucket(String::new()).color(),
        "0 0 0 0",
    ];
    for i in 0..4 {
        for j in 0..i {
            assert_ne!(colors[i], colors[j]);
        }
    }
}

#[test]
fn shapes_by_their_numbers() {
    assert_eq!(ShapeType::from_code(0), Some(ShapeType::Triangle));
    assert_eq!(ShapeType::from_code(1), Some(ShapeType::Rhythm));
    assert_eq!(ShapeType::from_code(2), Some(ShapeType::Square));
    assert_eq!(ShapeType::from_code(3), Some(ShapeType::ControlSquareMaster));
    assert_eq!(ShapeType::from_code(4), Some(ShapeType::ControlSquarePassive));
    assert_eq!(ShapeType::from_code(7), Some(ShapeType::HexagonShapes));
    assert_eq!(ShapeType::from_code(8), Some(ShapeType::TriangleShapes));
    assert_eq!(ShapeType::from_code(9), Some(ShapeType::MiniTriangleShapes));
    assert_eq!(ShapeType::from_code(12), Some(ShapeType::ShapesController));
    assert_eq!(ShapeType::from_code(14), Some(ShapeType::ElementsHexagons));
    assert_eq!(ShapeType::from_code(15), Some(ShapeType::ElementsHexagonsCorner));
    assert_eq!(ShapeType::from_code(16), Some(ShapeType::LinesConnector));
    assert_eq!(ShapeType::from_code(17), Some(ShapeType::LightLines));
    assert_eq!(ShapeType::from_code(18), Some(ShapeType::LightLinesSingleZone));
    assert_eq!(ShapeType::from_code(19), Some(ShapeType::ControllerCap));
    assert_eq!(ShapeType::from_code(20), Some(ShapeType::PowerConnector));
    for code in [5, 6, 10, 11, 13, 21, 255] {
        assert_eq!(ShapeType::from_code(code), None);
    }
}

#[test]
fn different_boards_have_different_frames() {
    let instance = AWSResource::Instance("a".to_string());
    let table = AWSResource::Table("a".to_string());
    let frames = [
        draw(2, &vec![(1, instance.clone())], &vec![2]),
        draw(2, &vec![(1, table)], &vec![2]),
        draw(2, &vec![(2, instance.clone())], &vec![1]),
        draw(2, &vec![], &vec![1, 2]),
        draw(2, &vec![], &vec![2, 1]),
        draw(2, &vec![], &vec![12]),
        draw(21, &vec![], &vec![2]),
        draw(2, &vec![], &vec![]),
    ];
    for i in 0..frames.len() {
        for j in 0..i {
            assert_ne!(frames[i], frames[j]);
        }
    }
}

#[test]
fn head_of_the_frame_counts_the_cells() {
    let panels = report(
        3,
        vec![
            (1, ShapeType::HexagonShapes),
            (2, ShapeType::HexagonShapes),
            (0, ShapeType::ShapesController),
        ],
    );
    let mut available = vec![];
    let count = panel_count(&panels);
    initialize_panels(count, &panels, &mut available);
    assert_eq!(count as usize, available.len());
}
