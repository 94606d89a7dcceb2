use velo::canvas::{entity_to_edit_changed, NodeFocus, NodeType, OutlineStyle, RawTextChange, TextNode};
use velo::canvas::{
    arrow_ends, arrow_shape, elbow, Elbow, create_arrow_start, pos_to_style, redraw_arrows, style_to_pos, AlignItems, ArrowConnect,
    ArrowConnectPos, ArrowMeta, ArrowType, Canvas, JustifyContent, ButtonTypes, NodeLayer,
    ResizeMarker, TextPos, UiState, HOLD_DELAY_MS,
};

fn connect(id: u128, pos: ArrowConnectPos) -> ArrowConnect {
    ArrowConnect { id, pos }
}

fn arrow(a: u128, b: u128) -> ArrowMeta {
    ArrowMeta {
        arrow_type: ArrowType::Arrow,
        start: connect(a, ArrowConnectPos::Right),
        end: connect(b, ArrowConnectPos::Left),
    }
}

#[test]
fn two_clicks_on_different_nodes_make_an_arrow() {
    let mut start = None;
    let a = connect(1, ArrowConnectPos::Top);
    let b = connect(2, ArrowConnectPos::Bottom);
    assert_eq!(create_arrow_start(&mut start, a, ArrowType::Line), None);
    assert_eq!(start, Some(a));
    let made = create_arrow_start(&mut start, b, ArrowType::Line);
    assert_eq!(made, Some(ArrowMeta { arrow_type: ArrowType::Line, start: a, end: b }));
    assert_eq!(start, None);
}

#[test]
fn clicking_the_same_node_twice_makes_no_arrow() {
    let mut start = Some(connect(1, ArrowConnectPos::Top));
    assert_eq!(create_arrow_start(&mut start, connect(1, ArrowConnectPos::Left), ArrowType::Line), None);
    assert_eq!(start, Some(connect(1, ArrowConnectPos::Top)));
}

#[test]
fn moved_nodes_redraw_their_arrows_once() {
    let arrows = vec![arrow(1, 2), arrow(2, 3), arrow(3, 4), arrow(1, 2)];
    assert_eq!(redraw_arrows(&arrows, &vec![2]), vec![arrow(1, 2), arrow(2, 3)]);
    assert_eq!(redraw_arrows(&arrows, &vec![2, 4]), vec![arrow(1, 2), arrow(2, 3), arrow(3, 4)]);
    assert_eq!(redraw_arrows(&arrows, &vec![]), vec![]);
}

#[test]
fn deleting_a_node_removes_its_arrows() {
    let mut ui = UiState::default();
    ui.entity_to_edit = Some(2);
    ui.hold_entity = Some(2);
    let mut canvas = Canvas {
        nodes: vec![NodeLayer { id: 1, z_index: 0 }, NodeLayer { id: 2, z_index: 0 }],
        arrows: vec![arrow(1, 2), arrow(3, 1), arrow(2, 3)],
    };
    assert!(!ui.rec_button_handlers(ButtonTypes::Del, &mut canvas));
    assert_eq!(canvas.nodes, vec![NodeLayer { id: 1, z_index: 0 }]);
    assert_eq!(canvas.arrows, vec![arrow(3, 1)]);
    assert_eq!(ui.entity_to_edit, None);
    assert_eq!(ui.hold_entity, None);
}

#[test]
fn front_and_back_move_the_layer() {
    let mut ui = UiState::default();
    ui.entity_to_edit = Some(1);
    let mut canvas = Canvas { nodes: vec![NodeLayer { id: 1, z_index: 3 }, NodeLayer { id: 2, z_index: 3 }], arrows: vec![] };
    ui.rec_button_handlers(ButtonTypes::Front, &mut canvas);
    assert_eq!(canvas.nodes[0].z_index, 4);
    ui.rec_button_handlers(ButtonTypes::Back, &mut canvas);
    ui.rec_button_handlers(ButtonTypes::Back, &mut canvas);
    assert_eq!(canvas.nodes[0].z_index, 2);
    assert_eq!(canvas.nodes[1].z_index, 3);
    assert!(ui.rec_button_handlers(ButtonTypes::Add, &mut canvas));
}

#[test]
fn text_positions_round_trip_through_styles() {
    for pos in [TextPos::Center, TextPos::BottomRight, TextPos::BottomLeft, TextPos::TopRight, TextPos::TopLeft] {
        assert_eq!(style_to_pos(pos_to_style(pos)), pos);
    }
    assert_eq!(pos_to_style(TextPos::TopRight), (JustifyContent::FlexEnd, AlignItems::FlexStart));
    assert_eq!(style_to_pos((JustifyContent::SpaceAround, AlignItems::Stretch)), TextPos::Center);
}

#[test]
fn resize_handles_move_the_right_edges() {
    let f = ResizeMarker::TopLeft.factors();
    assert_eq!((f.width, f.height, f.left, f.bottom), (-1, -1, 1, 0));
    let f = ResizeMarker::BottomRight.factors();
    assert_eq!((f.width, f.height, f.left, f.bottom), (1, 1, 0, -1));
}

#[test]
fn a_node_is_held_only_after_the_delay() {
    let mut ui = UiState::default();
    let mut held = (0u64, None);
    ui.set_focused_entity(&mut held, Some(7), 1000, false);
    assert_eq!(ui.entity_to_edit, Some(7));
    assert_eq!(ui.hold_entity, None);
    ui.set_focused_entity(&mut held, None, 1000 + HOLD_DELAY_MS, false);
    assert_eq!(ui.hold_entity, None);
    ui.set_focused_entity(&mut held, None, 1001 + HOLD_DELAY_MS, false);
    assert_eq!(ui.hold_entity, Some(7));
    ui.set_focused_entity(&mut held, None, 2000, true);
    assert_eq!(ui.hold_entity, None);
    assert_eq!(held, (0, None));
}

#[test]
fn default_arrow_type_is_parallel_arrow() {
    assert_eq!(ArrowType::default(), ArrowType::ParallelArrow);
    assert_eq!(UiState::default().arrow_type, ArrowType::ParallelArrow);
}

#[test]
fn focus_change_highlights_the_edited_node() {
    let nodes = vec![
        TextNode { id: 1, kind: NodeType::Rect, raw_shown: true },
        TextNode { id: 2, kind: NodeType::Circle, raw_shown: false },
        TextNode { id: 3, kind: NodeType::Rect, raw_shown: false },
    ];
    let mut last = Some(3);
    assert_eq!(entity_to_edit_changed(Some(3), &mut last, true, &nodes), None);
    assert_eq!(last, Some(3));
    let mut last = None;
    assert_eq!(entity_to_edit_changed(Some(3), &mut last, false, &nodes), None);
    assert_eq!(last, None);
    let mut last = Some(1);
    let plan = entity_to_edit_changed(Some(3), &mut last, true, &nodes).unwrap();
    assert_eq!(last, Some(3));
    assert_eq!(
        plan,
        vec![
            NodeFocus { outline: OutlineStyle::Plain(NodeType::Rect), raw_text: RawTextChange::HideAndRender, drop_rendered: false },
            NodeFocus { outline: OutlineStyle::Plain(NodeType::Circle), raw_text: RawTextChange::Keep, drop_rendered: false },
            NodeFocus { outline: OutlineStyle::Selected, raw_text: RawTextChange::Show, drop_rendered: true },
        ]
    );
}

#[test]
fn elbows_follow_the_connected_sides() {
    assert_eq!(elbow(ArrowConnectPos::Top, ArrowConnectPos::Bottom), Elbow::AcrossMiddleRow);
    assert_eq!(elbow(ArrowConnectPos::Right, ArrowConnectPos::Left), Elbow::AcrossMiddleColumn);
    assert_eq!(elbow(ArrowConnectPos::Bottom, ArrowConnectPos::Right), Elbow::CornerBelowStart);
    assert_eq!(elbow(ArrowConnectPos::Left, ArrowConnectPos::Top), Elbow::CornerBesideStart);
    assert_eq!(elbow(ArrowConnectPos::Top, ArrowConnectPos::Top), Elbow::Midpoint);
}

#[test]
fn arrow_types_choose_their_parts() {
    let s = arrow_shape(ArrowType::ParallelDoubleArrow);
    assert!(s.elbowed && s.head_at_end && s.head_at_start);
    let s = arrow_shape(ArrowType::Arrow);
    assert!(!s.elbowed && s.head_at_end && !s.head_at_start);
    let s = arrow_shape(ArrowType::Line);
    assert!(!s.elbowed && !s.head_at_end && !s.head_at_start);
}

#[test]
fn arrow_ends_are_found_among_markers() {
    let a = connect(1, ArrowConnectPos::Right);
    let b = connect(2, ArrowConnectPos::Left);
    let c = connect(3, ArrowConnectPos::Top);
    let markers = vec![(a, (1.0f32, 1.0f32)), (c, (3.0, 3.0)), (b, (2.0, 2.0))];
    assert_eq!(arrow_ends(&markers, a, b), Some(((1.0, 1.0), (2.0, 2.0))));
    assert_eq!(arrow_ends(&markers, b, a), Some(((2.0, 2.0), (1.0, 1.0))));
    assert_eq!(arrow_ends(&markers, a, connect(9, ArrowConnectPos::Top)), None);
}
