//! The diagram canvas: nodes, the arrows between their connectors, and the
//! interaction state of the editor.

use vstd::prelude::*;

verus! {

/// The side of a node where an arrow attaches.
#[derive(Clone, Copy, Debug, PartialEq, Eq, Structural)]
pub enum ArrowConnectPos {
    Top,
    Bottom,
    Left,
    Right,
}

/// How an arrow is drawn.
#[derive(Clone, Copy, Debug, PartialEq, Eq, Structural)]
pub enum ArrowType {
    Line,
    Arrow,
    DoubleArrow,
    ParallelLine,
    ParallelArrow,
    ParallelDoubleArrow,
}

impl Default for ArrowType {
    /// The arrow type the editor starts with.
    fn default() -> (t: ArrowType)
        ensures
            t == ArrowType::ParallelArrow,
    {
        ArrowType::ParallelArrow
    }
}

/// A connector: a side of the node with the given id.
#[derive(Clone, Copy, Debug, PartialEq, Eq, Structural)]
pub struct ArrowConnect {
    pub id: u128,
    pub pos: ArrowConnectPos,
}

/// An arrow between two connectors.
#[derive(Clone, Copy, Debug, PartialEq, Eq, Structural)]
pub struct ArrowMeta {
    pub arrow_type: ArrowType,
    pub start: ArrowConnect,
    pub end: ArrowConnect,
}

/// Whether an arrow attaches to the node `id`.
pub open spec fn touches(arrow: ArrowMeta, id: u128) -> bool {
    arrow.start.id == id || arrow.end.id == id
}

/// The outcome of clicking a connector while drawing arrows: the connector
/// where the next arrow starts, and the arrow to create, if any. A first
/// click picks the start; a click on another node's connector creates the
/// arrow and clears the start; a click on the start node again does nothing.
pub open spec fn after_connector_click(
    start: Option<ArrowConnect>,
    clicked: ArrowConnect,
    arrow_type: ArrowType,
) -> (Option<ArrowConnect>, Option<ArrowMeta>) {
    match start {
        Some(s) => if s.id == clicked.id {
            (start, None)
        } else {
            (None, Some(ArrowMeta { arrow_type, start: s, end: clicked }))
        },
        None => (Some(clicked), None),
    }
}

/// Handles a click on a connector (see `after_connector_click`); returns
/// the arrow to create, if any.
pub fn create_arrow_start(
    start: &mut Option<ArrowConnect>,
    clicked: ArrowConnect,
    arrow_type: ArrowType,
) -> (created: Option<ArrowMeta>)
    ensures
        (*final(start), created) == after_connector_click(*old(start), clicked, arrow_type),
{
    match *start {
        Some(s) => {
            if s.id == clicked.id {
                None
            } else {
                *start = None;
                Some(ArrowMeta { arrow_type, start: s, end: clicked })
            }
        },
        None => {
            *start = Some(clicked);
            None
        },
    }
}

/// No arrow created by clicking connectors joins a node to itself.
pub proof fn lemma_no_self_arrow(
    start: Option<ArrowConnect>,
    clicked: ArrowConnect,
    arrow_type: ArrowType,
)
    ensures
        after_connector_click(start, clicked, arrow_type).1 matches Some(a) ==> a.start.id
            != a.end.id,
{
}

/// The distinct arrows among `arrows` that attach to one of the nodes in
/// `moved`, each once, in order of first appearance.
pub open spec fn arrows_to_redraw(arrows: Seq<ArrowMeta>, moved: Seq<u128>) -> Seq<ArrowMeta>
    decreases arrows.len(),
{
    if arrows.len() == 0 {
        Seq::empty()
    } else {
        let before = arrows_to_redraw(arrows.drop_last(), moved);
        let a = arrows.last();
        if (exists|k: int| 0 <= k < moved.len() && touches(a, #[trigger] moved[k])) && !before.contains(
            a,
        ) {
            before.push(a)
        } else {
            before
        }
    }
}

fn touches_any(arrow: &ArrowMeta, moved: &Vec<u128>) -> (hit: bool)
    ensures
        hit == exists|k: int| 0 <= k < moved.len() && touches(*arrow, #[trigger] moved@[k]),
{
    let mut i: usize = 0;
    while i < moved.len()
        invariant
            i <= moved.len(),
            forall|k: int| 0 <= k < i ==> !touches(*arrow, #[trigger] moved@[k]),
        decreases moved.len() - i,
    {
        if arrow.start.id == moved[i] || arrow.end.id == moved[i] {
            return true;
        }
        i = i + 1;
    }
    false
}

fn contains_arrow(list: &Vec<ArrowMeta>, a: &ArrowMeta) -> (found: bool)
    ensures
        found == list@.contains(*a),
{
    let mut i: usize = 0;
    while i < list.len()
        invariant
            i <= list.len(),
            forall|k: int| 0 <= k < i ==> list@[k] != *a,
        decreases list.len() - i,
    {
        if list[i] == *a {
            return true;
        }
        i = i + 1;
    }
    false
}

/// The arrows to take down and draw again after the nodes in `moved`
/// moved or changed size (see `arrows_to_redraw`).
pub fn redraw_arrows(arrows: &Vec<ArrowMeta>, moved: &Vec<u128>) -> (redraw: Vec<ArrowMeta>)
    ensures
        redraw@ == arrows_to_redraw(arrows@, moved@),
{
    let mut redraw: Vec<ArrowMeta> = Vec::new();
    let mut i: usize = 0;
    while i < arrows.len()
        invariant
            i <= arrows.len(),
            redraw@ == arrows_to_redraw(arrows@.take(i as int), moved@),
        decreases arrows.len() - i,
    {
        proof {
            assert(arrows@.take(i + 1).drop_last() =~= arrows@.take(i as int));
        }
        let a = arrows[i];
        if touches_any(&a, moved) && !contains_arrow(&redraw, &a) {
            redraw.push(a);
        }
        i = i + 1;
    }
    proof {
        assert(arrows@.take(arrows.len() as int) =~= arrows@);
    }
    redraw
}

/// Every arrow attached to a moved node is redrawn, no other arrow is, and
/// none is redrawn twice.
pub proof fn lemma_redraw_exactly_touching(arrows: Seq<ArrowMeta>, moved: Seq<u128>)
    ensures
        forall|a: ArrowMeta|
            #[trigger] arrows_to_redraw(arrows, moved).contains(a) <==> (arrows.contains(a)
                && exists|k: int| 0 <= k < moved.len() && touches(a, #[trigger] moved[k])),
        arrows_to_redraw(arrows, moved).no_duplicates(),
    decreases arrows.len(),
{
    if arrows.len() > 0 {
        let rest = arrows.drop_last();
        lemma_redraw_exactly_touching(rest, moved);
        let r = arrows_to_redraw(rest, moved);
        let last = arrows.last();
        assert forall|a: ArrowMeta| #[trigger] arrows.contains(a) <==> (rest.contains(a) || a
            == last) by {
            if arrows.contains(a) {
                let i = choose|i: int| 0 <= i < arrows.len() && arrows[i] == a;
                if i < arrows.len() - 1 {
                    assert(rest[i] == a);
                }
            }
            if rest.contains(a) {
                let i = choose|i: int| 0 <= i < rest.len() && rest[i] == a;
                assert(arrows[i] == a);
            }
            if a == last {
                assert(arrows[arrows.len() - 1] == a);
            }
        }
        assert forall|a: ArrowMeta| #[trigger] r.push(last).contains(a) <==> (r.contains(a) || a
            == last) by {
            if r.push(last).contains(a) {
                let i = choose|i: int| 0 <= i < r.len() + 1 && r.push(last)[i] == a;
                if i < r.len() {
                    assert(r[i] == a);
                }
            }
            if r.contains(a) {
                let i = choose|i: int| 0 <= i < r.len() && r[i] == a;
                assert(r.push(last)[i] == a);
            }
            if a == last {
                assert(r.push(last)[r.len() as int] == a);
            }
        }
    }
}

/// A node on the canvas, by its stacking order.
#[derive(Clone, Copy, Debug, PartialEq, Eq, Structural)]
pub struct NodeLayer {
    pub id: u128,
    pub z_index: i32,
}

/// The buttons that act on the node being edited.
#[derive(Clone, Copy, Debug, PartialEq, Eq, Structural)]
pub enum ButtonTypes {
    /// Add a new node.
    Add,
    /// Delete the node being edited and its arrows.
    Del,
    /// Raise the node being edited by one layer.
    Front,
    /// Lower the node being edited by one layer.
    Back,
}

/// The nodes and arrows of the open tab.
pub struct Canvas {
    pub nodes: Vec<NodeLayer>,
    pub arrows: Vec<ArrowMeta>,
}

/// The nodes other than `id`, in order.
pub open spec fn nodes_without(nodes: Seq<NodeLayer>, id: u128) -> Seq<NodeLayer> {
    nodes.filter(|n: NodeLayer| n.id != id)
}

/// The arrows not attached to `id`, in order.
pub open spec fn arrows_without(arrows: Seq<ArrowMeta>, id: u128) -> Seq<ArrowMeta> {
    arrows.filter(|a: ArrowMeta| !touches(a, id))
}

/// The nodes with the layer of every node `id` moved by `delta`.
pub open spec fn nodes_shifted(nodes: Seq<NodeLayer>, id: u128, delta: int) -> Seq<NodeLayer> {
    nodes.map_values(
        |n: NodeLayer|
            if n.id == id {
                NodeLayer { z_index: (n.z_index + delta) as i32, ..n }
            } else {
                n
            },
    )
}

/// Whether the layers of the nodes `id` can move by `delta` within `i32`.
pub open spec fn can_shift(nodes: Seq<NodeLayer>, id: u128, delta: int) -> bool {
    forall|k: int|
        0 <= k < nodes.len() && #[trigger] nodes[k].id == id ==> i32::MIN <= nodes[k].z_index
            + delta <= i32::MAX
}

impl Canvas {
    /// Deletes node `id` and every arrow attached to it.
    pub fn delete_node(&mut self, id: u128)
        ensures
            final(self).nodes@ == nodes_without(old(self).nodes@, id),
            final(self).arrows@ == arrows_without(old(self).arrows@, id),
    {
        let mut nodes: Vec<NodeLayer> = Vec::new();
        let mut i: usize = 0;
        while i < self.nodes.len()
            invariant
                i <= self.nodes.len(),
                self.nodes@ == old(self).nodes@,
                nodes@ == nodes_without(self.nodes@.take(i as int), id),
            decreases self.nodes.len() - i,
        {
            proof {
                assert(self.nodes@.take(i + 1).drop_last() =~= self.nodes@.take(i as int));
                reveal_with_fuel(Seq::filter, 1);
            }
            let n = self.nodes[i];
            if n.id != id {
                nodes.push(n);
            }
            i = i + 1;
        }
        proof {
            assert(self.nodes@.take(self.nodes.len() as int) =~= self.nodes@);
        }
        let mut arrows: Vec<ArrowMeta> = Vec::new();
        let mut j: usize = 0;
        while j < self.arrows.len()
            invariant
                j <= self.arrows.len(),
                self.arrows@ == old(self).arrows@,
                arrows@ == arrows_without(self.arrows@.take(j as int), id),
            decreases self.arrows.len() - j,
        {
            proof {
                assert(self.arrows@.take(j + 1).drop_last() =~= self.arrows@.take(j as int));
                reveal_with_fuel(Seq::filter, 1);
            }
            let a = self.arrows[j];
            if a.start.id != id && a.end.id != id {
                arrows.push(a);
            }
            j = j + 1;
        }
        proof {
            assert(self.arrows@.take(self.arrows.len() as int) =~= self.arrows@);
        }
        self.nodes = nodes;
        self.arrows = arrows;
    }

    /// Moves the layer of node `id` up (`raise`) or down by one.
    pub fn shift_layer(&mut self, id: u128, raise: bool)
        requires
            can_shift(old(self).nodes@, id, if raise { 1 } else { -1 }),
        ensures
            final(self).nodes@ == nodes_shifted(old(self).nodes@, id, if raise { 1 } else { -1 }),
            final(self).arrows@ == old(self).arrows@,
    {
        let ghost delta: int = if raise { 1 } else { -1 };
        let mut i: usize = 0;
        while i < self.nodes.len()
            invariant
                i <= self.nodes.len(),
                self.nodes.len() == old(self).nodes.len(),
                self.arrows@ == old(self).arrows@,
                can_shift(old(self).nodes@, id, delta),
                delta == (if raise { 1int } else { -1int }),
                forall|k: int| i <= k < self.nodes.len() ==> #[trigger] self.nodes@[k] == old(self).nodes@[k],
                forall|k: int|
                    0 <= k < i ==> #[trigger] self.nodes@[k] == nodes_shifted(
                        old(self).nodes@,
                        id,
                        delta,
                    )[k],
            decreases self.nodes.len() - i,
        {
            let n = self.nodes[i];
            if n.id == id {
                assert(old(self).nodes@[i as int] == n);
                let z = if raise {
                    n.z_index + 1
                } else {
                    n.z_index - 1
                };
                self.nodes.set(i, NodeLayer { id: n.id, z_index: z });
            }
            i = i + 1;
        }
        proof {
            assert(self.nodes@ =~= nodes_shifted(old(self).nodes@, id, delta));
        }
    }
}

/// After a node is deleted, no node with its id and no arrow attached to
/// it remains, and every other node and arrow does.
pub proof fn lemma_delete_node_removes_its_arrows(
    nodes: Seq<NodeLayer>,
    arrows: Seq<ArrowMeta>,
    id: u128,
)
    ensures
        forall|k: int|
            0 <= k < nodes_without(nodes, id).len() ==> #[trigger] nodes_without(nodes, id)[k].id
                != id,
        forall|k: int|
            0 <= k < arrows_without(arrows, id).len() ==> !touches(
                #[trigger] arrows_without(arrows, id)[k],
                id,
            ),
        forall|n: NodeLayer| n.id != id && nodes.contains(n) ==> #[trigger] nodes_without(
            nodes,
            id,
        ).contains(n),
        forall|a: ArrowMeta| !touches(a, id) && arrows.contains(a) ==> #[trigger] arrows_without(
            arrows,
            id,
        ).contains(a),
{
    let pn = |n: NodeLayer| n.id != id;
    let pa = |a: ArrowMeta| !touches(a, id);
    broadcast use vstd::seq_lib::group_filter_ensures;

    assert forall|n: NodeLayer| n.id != id && nodes.contains(n) implies #[trigger] nodes_without(
        nodes,
        id,
    ).contains(n) by {
        nodes.lemma_filter_contains_rev(pn, n);
    }
    assert forall|a: ArrowMeta| !touches(a, id) && arrows.contains(a) implies #[trigger] arrows_without(
        arrows,
        id,
    ).contains(a) by {
        arrows.lemma_filter_contains_rev(pa, a);
    }
}

/// The corner handle by which a node is resize_entity_end.
#[derive(Clone, Copy, Debug, PartialEq, Eq, Structural)]
pub enum ResizeMarker {
    TopLeft,
    TopRight,
    BottomLeft,
    BottomRight,
}

/// How a pointer motion `(dx, dy)` on a resize handle changes a node: each
/// factor multiplies `dx` (width, left) or `dy` (height, bottom).
#[derive(Clone, Copy, Debug, PartialEq, Eq, Structural)]
pub struct ResizeFactors {
    pub width: i8,
    pub height: i8,
    pub left: i8,
    pub bottom: i8,
}

/// The factors of each handle: a handle on the left grows the width as the
/// pointer moves left and moves the left edge along; a handle at the top
/// grows the height as the pointer moves up; a handle at the bottom moves
/// the bottom edge along.
pub open spec fn spec_resize_factors(marker: ResizeMarker) -> ResizeFactors {
    match marker {
        ResizeMarker::TopLeft => ResizeFactors { width: -1i8, height: -1i8, left: 1i8, bottom: 0i8 },
        ResizeMarker::TopRight => ResizeFactors { width: 1i8, height: -1i8, left: 0i8, bottom: 0i8 },
        ResizeMarker::BottomLeft => ResizeFactors { width: -1i8, height: 1i8, left: 1i8, bottom: -1i8 },
        ResizeMarker::BottomRight => ResizeFactors { width: 1i8, height: 1i8, left: 0i8, bottom: -1i8 },
    }
}

impl ResizeMarker {
    /// The factors of this handle (see `spec_resize_factors`).
    pub fn factors(&self) -> (f: ResizeFactors)
        ensures
            f == spec_resize_factors(*self),
    {
        match self {
            ResizeMarker::TopLeft => ResizeFactors { width: -1, height: -1, left: 1, bottom: 0 },
            ResizeMarker::TopRight => ResizeFactors { width: 1, height: -1, left: 0, bottom: 0 },
            ResizeMarker::BottomLeft => ResizeFactors { width: -1, height: 1, left: 1, bottom: -1 },
            ResizeMarker::BottomRight => ResizeFactors { width: 1, height: 1, left: 0, bottom: -1 },
        }
    }
}

/// Whether a handle sits on the node's left edge.
pub open spec fn handle_on_left(marker: ResizeMarker) -> bool {
    marker is TopLeft || marker is BottomLeft
}

/// Whether a handle sits on the node's top edge.
pub open spec fn handle_on_top(marker: ResizeMarker) -> bool {
    marker is TopLeft || marker is TopRight
}

/// Dragging a handle moves the two edges it sits on with the pointer and
/// keeps the two opposite edges in place. Horizontally, the left edge is at
/// `left` and the right edge at `left + width`; vertically, the bottom edge
/// is at `bottom` and the top edge at `bottom + height`, and the pointer's
/// `dy` grows downwards, so an edge that follows the pointer vertically
/// moves by `-dy`: factor `-1`. Hence a handle on the
/// top grows the height as the pointer moves up (`height == -1`), one on the
/// bottom as it moves down (`height == 1`), and one on the left grows the
/// width as it moves left (`width == -1`).
pub proof fn lemma_resize_moves_only_the_dragged_edges(marker: ResizeMarker)
    ensures
        ({
            let f = spec_resize_factors(marker);
            &&& handle_on_left(marker) ==> f.left == 1 && f.left + f.width == 0
            &&& !handle_on_left(marker) ==> f.left == 0 && f.left + f.width == 1
            &&& handle_on_top(marker) ==> f.bottom == 0 && f.bottom + f.height == -1
            &&& !handle_on_top(marker) ==> f.bottom == -1 && f.bottom + f.height == 0
            &&& f.width == (if handle_on_left(marker) { -1i8 } else { 1i8 })
            &&& f.height == (if handle_on_top(marker) { -1i8 } else { 1i8 })
        }),
{
}

/// Where a node's text sits inside it.
#[derive(Clone, Copy, Debug, PartialEq, Eq, Structural)]
pub enum TextPos {
    Center,
    BottomRight,
    BottomLeft,
    TopRight,
    TopLeft,
}

/// Horizontal placement of a node's content.
#[derive(Clone, Copy, Debug, PartialEq, Eq, Structural)]
pub enum JustifyContent {
    FlexStart,
    FlexEnd,
    Center,
    SpaceBetween,
    SpaceAround,
    SpaceEvenly,
}

/// Vertical placement of a node's content.
#[derive(Clone, Copy, Debug, PartialEq, Eq, Structural)]
pub enum AlignItems {
    FlexStart,
    FlexEnd,
    Center,
    Baseline,
    Stretch,
}

/// The placement that puts text at a position: right means the end of the
/// row, top means the start of the column.
pub open spec fn spec_pos_to_style(text_pos: TextPos) -> (JustifyContent, AlignItems) {
    match text_pos {
        TextPos::TopRight => (JustifyContent::FlexEnd, AlignItems::FlexStart),
        TextPos::TopLeft => (JustifyContent::FlexStart, AlignItems::FlexStart),
        TextPos::BottomRight => (JustifyContent::FlexEnd, AlignItems::FlexEnd),
        TextPos::BottomLeft => (JustifyContent::FlexStart, AlignItems::FlexEnd),
        TextPos::Center => (JustifyContent::Center, AlignItems::Center),
    }
}

/// The position of text placed by a style; any other placement reads as
/// centered.
pub open spec fn spec_style_to_pos(style: (JustifyContent, AlignItems)) -> TextPos {
    match style {
        (JustifyContent::FlexEnd, AlignItems::FlexStart) => TextPos::TopRight,
        (JustifyContent::FlexStart, AlignItems::FlexStart) => TextPos::TopLeft,
        (JustifyContent::FlexEnd, AlignItems::FlexEnd) => TextPos::BottomRight,
        (JustifyContent::FlexStart, AlignItems::FlexEnd) => TextPos::BottomLeft,
        _ => TextPos::Center,
    }
}

/// The placement that puts text at `text_pos` (see `spec_pos_to_style`).
pub fn pos_to_style(text_pos: TextPos) -> (style: (JustifyContent, AlignItems))
    ensures
        style == spec_pos_to_style(text_pos),
{
    match text_pos {
        TextPos::TopRight => (JustifyContent::FlexEnd, AlignItems::FlexStart),
        TextPos::TopLeft => (JustifyContent::FlexStart, AlignItems::FlexStart),
        TextPos::BottomRight => (JustifyContent::FlexEnd, AlignItems::FlexEnd),
        TextPos::BottomLeft => (JustifyContent::FlexStart, AlignItems::FlexEnd),
        TextPos::Center => (JustifyContent::Center, AlignItems::Center),
    }
}

/// The position of text placed by `style` (see `spec_style_to_pos`).
pub fn style_to_pos(style: (JustifyContent, AlignItems)) -> (text_pos: TextPos)
    ensures
        text_pos == spec_style_to_pos(style),
{
    match style {
        (JustifyContent::FlexEnd, AlignItems::FlexStart) => TextPos::TopRight,
        (JustifyContent::FlexStart, AlignItems::FlexStart) => TextPos::TopLeft,
        (JustifyContent::FlexEnd, AlignItems::FlexEnd) => TextPos::BottomRight,
        (JustifyContent::FlexStart, AlignItems::FlexEnd) => TextPos::BottomLeft,
        _ => TextPos::Center,
    }
}

/// A text position survives being turned into a style and read back, so a
/// saved node keeps where its text sits.
pub proof fn lemma_text_pos_round_trip(text_pos: TextPos)
    ensures
        spec_style_to_pos(spec_pos_to_style(text_pos)) == text_pos,
{
}

/// The editor's interaction state.
pub struct UiState {
    pub modal_id: Option<u128>,
    pub entity_to_edit: Option<u128>,
    pub tab_to_edit: Option<u128>,
    pub doc_to_edit: Option<u128>,
    pub arrow_type: ArrowType,
    pub hold_entity: Option<u128>,
    pub entity_to_resize: Option<(u128, ResizeMarker)>,
    pub arrow_to_draw_start: Option<ArrowConnect>,
}

/// How long a node must be held down before it follows the pointer.
pub const HOLD_DELAY_MS: u64 = 150;

impl Default for UiState {
    /// The state with nothing selected, held or being edited.
    fn default() -> (state: UiState)
        ensures
            state.modal_id is None,
            state.entity_to_edit is None,
            state.tab_to_edit is None,
            state.doc_to_edit is None,
            state.arrow_type == ArrowType::ParallelArrow,
            state.hold_entity is None,
            state.entity_to_resize is None,
            state.arrow_to_draw_start is None,
    {
        UiState {
            modal_id: None,
            entity_to_edit: None,
            tab_to_edit: None,
            doc_to_edit: None,
            arrow_type: ArrowType::default(),
            hold_entity: None,
            entity_to_resize: None,
            arrow_to_draw_start: None,
        }
    }
}

impl UiState {
    /// Closes the open dialog without acting on it; nothing else changes.
    pub fn cancel_modal(&mut self)
        ensures
            *final(self) == (UiState { modal_id: None, ..*old(self) }),
    {
        self.modal_id = None;
    }

    /// Presses a node button. `Del` deletes the node being edited with its
    /// arrows and clears the selection, hold, resize and pending arrow;
    /// `Front` and `Back` move its layer; `Add` asks for a new node, which
    /// the returned flag reports.
    pub fn rec_button_handlers(&mut self, button: ButtonTypes, canvas: &mut Canvas) -> (add: bool)
        requires
            button == ButtonTypes::Front && old(self).entity_to_edit is Some ==> can_shift(
                old(canvas).nodes@,
                old(self).entity_to_edit->0,
                1,
            ),
            button == ButtonTypes::Back && old(self).entity_to_edit is Some ==> can_shift(
                old(canvas).nodes@,
                old(self).entity_to_edit->0,
                -1,
            ),
        ensures
            add == (button == ButtonTypes::Add),
            ({
                let sel = old(self).entity_to_edit;
                if button == ButtonTypes::Del && sel is Some {
                    &&& final(canvas).nodes@ == nodes_without(old(canvas).nodes@, sel->0)
                    &&& final(canvas).arrows@ == arrows_without(old(canvas).arrows@, sel->0)
                    &&& final(self).entity_to_edit is None
                    &&& final(self).entity_to_resize is None
                    &&& final(self).hold_entity is None
                    &&& final(self).arrow_to_draw_start is None
                    &&& final(self).modal_id == old(self).modal_id
                    &&& final(self).tab_to_edit == old(self).tab_to_edit
                    &&& final(self).doc_to_edit == old(self).doc_to_edit
                    &&& final(self).arrow_type == old(self).arrow_type
                } else if (button == ButtonTypes::Front || button == ButtonTypes::Back) && sel is Some {
                    &&& final(canvas).nodes@ == nodes_shifted(
                        old(canvas).nodes@,
                        sel->0,
                        if button == ButtonTypes::Front {
                            1
                        } else {
                            -1
                        },
                    )
                    &&& final(canvas).arrows@ == old(canvas).arrows@
                    &&& *final(self) == *old(self)
                } else {
                    &&& final(canvas).nodes@ == old(canvas).nodes@
                    &&& final(canvas).arrows@ == old(canvas).arrows@
                    &&& *final(self) == *old(self)
                }
            }),
    {
        match button {
            ButtonTypes::Add => true,
            ButtonTypes::Del => {
                match self.entity_to_edit {
                    Some(id) => {
                        self.entity_to_edit = None;
                        self.entity_to_resize = None;
                        self.hold_entity = None;
                        self.arrow_to_draw_start = None;
                        canvas.delete_node(id);
                    },
                    None => {},
                }
                false
            },
            ButtonTypes::Front => {
                match self.entity_to_edit {
                    Some(id) => canvas.shift_layer(id, true),
                    None => {},
                }
                false
            },
            ButtonTypes::Back => {
                match self.entity_to_edit {
                    Some(id) => canvas.shift_layer(id, false),
                    None => {},
                }
                false
            },
        }
    }

    /// One frame of pointer handling for node selection and dragging.
    /// `held` is the time a node was pressed and which node, kept between
    /// frames. A press on node `clicked` resets the state, selects the node
    /// and notes the press; once more than `HOLD_DELAY_MS` have passed since
    /// the press, the node is held (it follows the pointer); releasing the
    /// button ends holding and resizing.
    pub fn set_focused_entity(
        &mut self,
        held: &mut (u64, Option<u128>),
        clicked: Option<u128>,
        now_ms: u64,
        released: bool,
    )
        requires
            clicked is Some || old(held).0 <= now_ms,
        ensures
            ({
                let pressed = match clicked {
                    Some(id) => (now_ms, Some(id)),
                    None => *old(held),
                };
                let hold = if clicked is Some {
                    None
                } else {
                    old(self).hold_entity
                };
                let now_held = if hold is None && now_ms - pressed.0 > HOLD_DELAY_MS
                    && pressed.1 is Some {
                    pressed.1
                } else {
                    hold
                };
                &&& *final(held) == (if released {
                    (0u64, None::<u128>)
                } else {
                    pressed
                })
                &&& final(self).hold_entity == (if released {
                    None
                } else {
                    now_held
                })
                &&& clicked is Some ==> {
                    &&& final(self).entity_to_edit == clicked
                    &&& final(self).modal_id is None
                    &&& final(self).tab_to_edit is None
                    &&& final(self).doc_to_edit is None
                    &&& final(self).arrow_type == ArrowType::ParallelArrow
                    &&& final(self).arrow_to_draw_start is None
                    &&& final(self).entity_to_resize is None
                }
                &&& clicked is None ==> {
                    &&& final(self).entity_to_edit == old(self).entity_to_edit
                    &&& final(self).modal_id == old(self).modal_id
                    &&& final(self).tab_to_edit == old(self).tab_to_edit
                    &&& final(self).doc_to_edit == old(self).doc_to_edit
                    &&& final(self).arrow_type == old(self).arrow_type
                    &&& final(self).arrow_to_draw_start == old(self).arrow_to_draw_start
                    &&& final(self).entity_to_resize == (if released {
                        None
                    } else {
                        old(self).entity_to_resize
                    })
                }
            }),
    {
        match clicked {
            Some(id) => {
                *self = UiState::default();
                self.entity_to_edit = Some(id);
                *held = (now_ms, Some(id));
            },
            None => {},
        }
        if self.hold_entity.is_none() && now_ms - held.0 > HOLD_DELAY_MS && held.1.is_some() {
            self.hold_entity = held.1;
        }
        if released {
            *held = (0, None);
            self.hold_entity = None;
            self.entity_to_resize = None;
        }
    }
}

/// A node is held only after it has been pressed for longer than
/// `HOLD_DELAY_MS`, and never after the button is released.
pub proof fn lemma_hold_needs_delay(
    hold_before: Option<u128>,
    pressed_at: u64,
    pressed: Option<u128>,
    now_ms: u64,
    released: bool,
)
    requires
        pressed_at <= now_ms,
    ensures
        ({
            let now_held = if hold_before is None && now_ms - pressed_at > HOLD_DELAY_MS
                && pressed is Some {
                pressed
            } else {
                hold_before
            };
            let result = if released {
                None
            } else {
                now_held
            };
            &&& released ==> result is None
            &&& hold_before is None && now_ms - pressed_at <= HOLD_DELAY_MS ==> result is None
        }),
{
}


/// The shape of a node.
#[derive(Clone, Copy, Debug, PartialEq, Eq, Structural)]
pub enum NodeType {
    Rect,
    Circle,
}

/// How a node's outline is drawn: highlighted (blue, two pixels) for the
/// node being edited, else plain (one pixel, visible for rectangles and
/// transparent for circles).
#[derive(Clone, Copy, Debug, PartialEq, Eq, Structural)]
pub enum OutlineStyle {
    Selected,
    Plain(NodeType),
}

/// What happens to a node's raw text when the edited node changes.
#[derive(Clone, Copy, Debug, PartialEq, Eq, Structural)]
pub enum RawTextChange {
    /// Show the raw text, for editing.
    Show,
    /// Hide the raw text and show it rendered as markdown.
    HideAndRender,
    /// Leave it as it is.
    Keep,
}

/// A node with text, as the focus change sees it.
#[derive(Clone, Copy, Debug, PartialEq, Eq, Structural)]
pub struct TextNode {
    pub id: u128,
    pub kind: NodeType,
    /// Whether its raw text is shown.
    pub raw_shown: bool,
}

/// How one node changes when the edited node becomes `selected`.
#[derive(Clone, Copy, Debug, PartialEq, Eq, Structural)]
pub struct NodeFocus {
    pub outline: OutlineStyle,
    pub raw_text: RawTextChange,
    /// Whether the node's rendered markdown is removed.
    pub drop_rendered: bool,
}

/// The change of one node: the edited node is highlighted, shows its raw
/// text and loses its rendered markdown; every other node gets a plain
/// outline and, if its raw text was shown, is rendered as markdown.
pub open spec fn focus_for(node: TextNode, selected: Option<u128>) -> NodeFocus {
    if selected == Some(node.id) {
        NodeFocus { outline: OutlineStyle::Selected, raw_text: RawTextChange::Show, drop_rendered: true }
    } else {
        NodeFocus {
            outline: OutlineStyle::Plain(node.kind),
            raw_text: if node.raw_shown {
                RawTextChange::HideAndRender
            } else {
                RawTextChange::Keep
            },
            drop_rendered: false,
        }
    }
}

/// The changes of the nodes when the state changed (`changed`) and the
/// edited node is no longer `last`; `None` when nothing is to change.
/// When the nodes change, `selected` is recorded in `last` as the node
/// edited last; otherwise `last` is left as it was.
pub fn entity_to_edit_changed(
    selected: Option<u128>,
    last: &mut Option<u128>,
    changed: bool,
    nodes: &Vec<TextNode>,
) -> (plan: Option<Vec<NodeFocus>>)
    ensures
        plan is Some <==> (changed && selected != *old(last)),
        plan is Some ==> plan->0@ == nodes@.map_values(|n: TextNode| focus_for(n, selected)),
        changed && selected != *old(last) ==> *final(last) == selected,
        !(changed && selected != *old(last)) ==> *final(last) == *old(last),
{
    if !changed || selected == *last {
        return None;
    }
    let mut plan: Vec<NodeFocus> = Vec::new();
    let mut i: usize = 0;
    while i < nodes.len()
        invariant
            i <= nodes.len(),
            plan@ == nodes@.take(i as int).map_values(|n: TextNode| focus_for(n, selected)),
        decreases nodes.len() - i,
    {
        let n = nodes[i];
        let f = if selected == Some(n.id) {
            NodeFocus { outline: OutlineStyle::Selected, raw_text: RawTextChange::Show, drop_rendered: true }
        } else {
            NodeFocus {
                outline: OutlineStyle::Plain(n.kind),
                raw_text: if n.raw_shown {
                    RawTextChange::HideAndRender
                } else {
                    RawTextChange::Keep
                },
                drop_rendered: false,
            }
        };
        plan.push(f);
        proof {
            assert(plan@ =~= nodes@.take(i + 1).map_values(|n: TextNode| focus_for(n, selected)));
        }
        i = i + 1;
    }
    proof {
        assert(nodes@.take(nodes.len() as int) =~= nodes@);
    }
    *last = selected;
    Some(plan)
}

/// After a focus change at most one node is highlighted and keeps its raw
/// text shown for editing, and it is the edited node.
pub proof fn lemma_only_edited_node_is_highlighted(nodes: Seq<TextNode>, selected: Option<u128>)
    ensures
        forall|i: int|
            0 <= i < nodes.len() ==> ((#[trigger] focus_for(nodes[i], selected)).outline
                == OutlineStyle::Selected <==> selected == Some(nodes[i].id)),
        forall|i: int|
            0 <= i < nodes.len() ==> ((#[trigger] focus_for(nodes[i], selected)).raw_text
                == RawTextChange::Show <==> selected == Some(nodes[i].id)),
{
}


/// Where the middle segment of an elbowed arrow runs, given the sides its
/// ends attach to.
#[derive(Clone, Copy, Debug, PartialEq, Eq, Structural)]
pub enum Elbow {
    /// From `(start.x, mid.y)` to `(end.x, mid.y)`: ends on the top and the
    /// bottom.
    AcrossMiddleRow,
    /// From `(mid.x, start.y)` to `(mid.x, end.y)`: ends on the left and the
    /// right.
    AcrossMiddleColumn,
    /// One corner at `(start.x, end.y)`: the start leaves vertically and the
    /// end is entered horizontally.
    CornerBelowStart,
    /// One corner at `(end.x, start.y)`: the start leaves horizontally and
    /// the end is entered vertically.
    CornerBesideStart,
    /// Both bends at the midpoint.
    Midpoint,
}

/// The elbow of an arrow between sides `start` and `end`.
pub open spec fn spec_elbow(start: ArrowConnectPos, end: ArrowConnectPos) -> Elbow {
    match (start, end) {
        (ArrowConnectPos::Top, ArrowConnectPos::Bottom) | (
            ArrowConnectPos::Bottom,
            ArrowConnectPos::Top,
        ) => Elbow::AcrossMiddleRow,
        (ArrowConnectPos::Left, ArrowConnectPos::Right) | (
            ArrowConnectPos::Right,
            ArrowConnectPos::Left,
        ) => Elbow::AcrossMiddleColumn,
        (ArrowConnectPos::Bottom, ArrowConnectPos::Left) | (
            ArrowConnectPos::Top,
            ArrowConnectPos::Right,
        ) | (ArrowConnectPos::Top, ArrowConnectPos::Left) | (
            ArrowConnectPos::Bottom,
            ArrowConnectPos::Right,
        ) => Elbow::CornerBelowStart,
        (ArrowConnectPos::Left, ArrowConnectPos::Bottom) | (
            ArrowConnectPos::Right,
            ArrowConnectPos::Top,
        ) | (ArrowConnectPos::Left, ArrowConnectPos::Top) | (
            ArrowConnectPos::Right,
            ArrowConnectPos::Bottom,
        ) => Elbow::CornerBesideStart,
        _ => Elbow::Midpoint,
    }
}

/// Whether a side is the top or the bottom of a node, so that an arrow
/// attached there leaves or enters vertically.
pub open spec fn vertical_side(p: ArrowConnectPos) -> bool {
    p is Top || p is Bottom
}

/// The elbowed path leaves its start perpendicular to the start's side and
/// enters its end perpendicular to the end's side: between two different
/// vertical sides (top and bottom, in either order) it crosses at the middle
/// row; between two different horizontal sides at the middle column; from
/// a vertical to a horizontal side it turns once below or above the start,
/// and from a horizontal to a vertical side once beside it; between two
/// equal sides it bends at the midpoint. In particular the elbow does not
/// depend on which of two opposite sides is the start.
pub proof fn lemma_elbow_follows_the_sides(start: ArrowConnectPos, end: ArrowConnectPos)
    ensures
        (spec_elbow(start, end) == Elbow::AcrossMiddleRow) <==> (vertical_side(start)
            && vertical_side(end) && start != end),
        (spec_elbow(start, end) == Elbow::AcrossMiddleColumn) <==> (!vertical_side(start)
            && !vertical_side(end) && start != end),
        (spec_elbow(start, end) == Elbow::CornerBelowStart) <==> (vertical_side(start)
            && !vertical_side(end)),
        (spec_elbow(start, end) == Elbow::CornerBesideStart) <==> (!vertical_side(start)
            && vertical_side(end)),
        (spec_elbow(start, end) == Elbow::Midpoint) <==> start == end,
        vertical_side(start) == vertical_side(end) ==> spec_elbow(start, end) == spec_elbow(end, start),
{
}

/// The elbow of an arrow (see `spec_elbow`).
pub fn elbow(start: ArrowConnectPos, end: ArrowConnectPos) -> (e: Elbow)
    ensures
        e == spec_elbow(start, end),
{
    match (start, end) {
        (ArrowConnectPos::Top, ArrowConnectPos::Bottom) | (
            ArrowConnectPos::Bottom,
            ArrowConnectPos::Top,
        ) => Elbow::AcrossMiddleRow,
        (ArrowConnectPos::Left, ArrowConnectPos::Right) | (
            ArrowConnectPos::Right,
            ArrowConnectPos::Left,
        ) => Elbow::AcrossMiddleColumn,
        (ArrowConnectPos::Bottom, ArrowConnectPos::Left) | (
            ArrowConnectPos::Top,
            ArrowConnectPos::Right,
        ) | (ArrowConnectPos::Top, ArrowConnectPos::Left) | (
            ArrowConnectPos::Bottom,
            ArrowConnectPos::Right,
        ) => Elbow::CornerBelowStart,
        (ArrowConnectPos::Left, ArrowConnectPos::Bottom) | (
            ArrowConnectPos::Right,
            ArrowConnectPos::Top,
        ) | (ArrowConnectPos::Left, ArrowConnectPos::Top) | (
            ArrowConnectPos::Right,
            ArrowConnectPos::Bottom,
        ) => Elbow::CornerBesideStart,
        _ => Elbow::Midpoint,
    }
}

/// The parts an arrow of some type is drawn with.
#[derive(Clone, Copy, Debug, PartialEq, Eq, Structural)]
pub struct ArrowShape {
    /// Drawn as three segments bent at an elbow, else as one straight line.
    pub elbowed: bool,
    /// A head at the end.
    pub head_at_end: bool,
    /// A head at the start.
    pub head_at_start: bool,
}

/// The parts of each arrow type: the parallel kinds are elbowed; arrows
/// have a head at the end, double arrows at both ends.
pub open spec fn spec_arrow_shape(t: ArrowType) -> ArrowShape {
    match t {
        ArrowType::Line => ArrowShape { elbowed: false, head_at_end: false, head_at_start: false },
        ArrowType::Arrow => ArrowShape { elbowed: false, head_at_end: true, head_at_start: false },
        ArrowType::DoubleArrow => ArrowShape { elbowed: false, head_at_end: true, head_at_start: true },
        ArrowType::ParallelLine => ArrowShape { elbowed: true, head_at_end: false, head_at_start: false },
        ArrowType::ParallelArrow => ArrowShape { elbowed: true, head_at_end: true, head_at_start: false },
        ArrowType::ParallelDoubleArrow => ArrowShape {
            elbowed: true,
            head_at_end: true,
            head_at_start: true,
        },
    }
}

/// The parts of an arrow type (see `spec_arrow_shape`).
pub fn arrow_shape(t: ArrowType) -> (shape: ArrowShape)
    ensures
        shape == spec_arrow_shape(t),
{
    match t {
        ArrowType::Line => ArrowShape { elbowed: false, head_at_end: false, head_at_start: false },
        ArrowType::Arrow => ArrowShape { elbowed: false, head_at_end: true, head_at_start: false },
        ArrowType::DoubleArrow => ArrowShape { elbowed: false, head_at_end: true, head_at_start: true },
        ArrowType::ParallelLine => ArrowShape { elbowed: true, head_at_end: false, head_at_start: false },
        ArrowType::ParallelArrow => ArrowShape { elbowed: true, head_at_end: true, head_at_start: false },
        ArrowType::ParallelDoubleArrow => ArrowShape {
            elbowed: true,
            head_at_end: true,
            head_at_start: true,
        },
    }
}


/// The search for the positions of an arrow's two connectors among the
/// connector markers, in order: the latest position seen for each, and the
/// pair found as soon as both have been seen.
pub open spec fn ends_scan<T>(markers: Seq<(ArrowConnect, T)>, start: ArrowConnect, end: ArrowConnect) -> (
    Option<T>,
    Option<T>,
    Option<(T, T)>,
)
    decreases markers.len(),
{
    if markers.len() == 0 {
        (None, None, None)
    } else {
        let (s, e, found) = ends_scan(markers.drop_last(), start, end);
        if found is Some {
            (s, e, found)
        } else {
            let (c, p) = markers.last();
            let s2 = if c == start {
                Some(p)
            } else {
                s
            };
            let e2 = if c == end {
                Some(p)
            } else {
                e
            };
            let f2 = if s2 is Some && e2 is Some {
                Some((s2->0, e2->0))
            } else {
                None
            };
            (s2, e2, f2)
        }
    }
}

/// The positions to draw an arrow between: those of its start and end
/// connectors among the markers, taken as soon as both have been met (see
/// `ends_scan`); `None` when one of them is missing.
pub fn arrow_ends<T: Copy>(markers: &Vec<(ArrowConnect, T)>, start: ArrowConnect, end: ArrowConnect) -> (ends: Option<(T, T)>)
    ensures
        ends == ends_scan(markers@, start, end).2,
{
    let mut s: Option<T> = None;
    let mut e: Option<T> = None;
    let mut i: usize = 0;
    while i < markers.len()
        invariant
            i <= markers.len(),
            ends_scan(markers@.take(i as int), start, end) == (s, e, None::<(T, T)>),
        decreases markers.len() - i,
    {
        proof {
            assert(markers@.take(i + 1).drop_last() =~= markers@.take(i as int));
            assert(markers@.take(i + 1).last() == markers@[i as int]);
        }
        let (c, p) = markers[i];
        if c == start {
            s = Some(p);
        }
        if c == end {
            e = Some(p);
        }
        match (s, e) {
            (Some(a), Some(b)) => {
                proof {
                    lemma_ends_scan_stops(markers@, start, end, i + 1);
                }
                return Some((a, b));
            },
            _ => {},
        }
        i = i + 1;
    }
    proof {
        assert(markers@.take(markers.len() as int) =~= markers@);
    }
    None
}

/// Once the pair is found, later markers do not change it.
pub proof fn lemma_ends_scan_stops<T>(
    markers: Seq<(ArrowConnect, T)>,
    start: ArrowConnect,
    end: ArrowConnect,
    n: int,
)
    requires
        0 <= n <= markers.len(),
        ends_scan(markers.take(n), start, end).2 is Some,
    ensures
        ends_scan(markers, start, end).2 == ends_scan(markers.take(n), start, end).2,
    decreases markers.len() - n,
{
    if n < markers.len() {
        assert(markers.take(n + 1).drop_last() =~= markers.take(n));
        lemma_ends_scan_stops(markers, start, end, n + 1);
    } else {
        assert(markers.take(n) =~= markers);
    }
}

} // verus!
