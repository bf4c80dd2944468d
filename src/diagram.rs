//! Cells and diagrams, and the build of one diagram: mapping, endpoint
//! resolution, layout, then trust-boundary boxes.

use vstd::prelude::*;
use crate::boundary::{
    anchor_present_exec, boundary_box, boundary_names, boxed_pred, boxes_for, collect_boundary_names, is_boundary_box,
    member_extent, member_extent_exec, within_canvas,
};
use crate::cell_data::CellData;
use crate::config::Config;
use crate::input::{string_views, InputDiagram, Node, TypeNode};
use crate::layout::{
    find_last_named, laid_out, plan_regions, position_of, region_key, region_keys, Rings, CELL_SIDE,
};
use crate::mapping::{cell_keys, cells_map_nodes, endpoint_for, find_last_flow, lookup_endpoint, map_nodes, resolved};
use crate::process::MappingFromInputDiagram;
use crate::threat::Threat;

verus! {

/// Top-left corner of a cell, in pixels.
#[derive(Debug, Clone, Copy, PartialEq, Eq, Structural)]
pub struct Position {
    pub x: i64,
    pub y: i64,
}

/// Extent of a cell, in pixels.
#[derive(Debug, Clone, Copy, PartialEq, Eq, Structural)]
pub struct Size {
    pub width: u64,
    pub height: u64,
}

/// What a cell draws.
#[derive(Debug, Clone, Copy, PartialEq, Eq, Structural)]
pub enum Shape {
    Process,
    Flow,
    TrustBoundaryBox,
}

impl Shape {
    pub open spec fn label(self) -> Seq<char> {
        match self {
            Shape::Process => "process"@,
            Shape::Flow => "flow"@,
            Shape::TrustBoundaryBox => "trust-boundary-box"@,
        }
    }

    pub fn to_string(&self) -> (r: String)
        ensures
            r@ == self.label(),
    {
        match self {
            Shape::Process => String::from_str("process"),
            Shape::Flow => String::from_str("flow"),
            Shape::TrustBoundaryBox => String::from_str("trust-boundary-box"),
        }
    }

    pub open spec fn of_kind(kind: TypeNode) -> Shape {
        match kind {
            TypeNode::Process => Shape::Process,
            TypeNode::Flow => Shape::Flow,
        }
    }
}

/// Outline style: a warning for elements with threats, neutral otherwise.
#[derive(Debug, Clone, Copy, PartialEq, Eq, Structural)]
pub enum Stroke {
    Warning,
    Neutral,
}

impl Stroke {
    pub open spec fn color_label(self) -> Seq<char> {
        match self {
            Stroke::Warning => "red"@,
            Stroke::Neutral => "#333333"@,
        }
    }

    /// Stroke color.
    pub fn color(&self) -> (r: String)
        ensures
            r@ == self.color_label(),
    {
        match self {
            Stroke::Warning => String::from_str("red"),
            Stroke::Neutral => String::from_str("#333333"),
        }
    }

    /// Line weight in tenths of a pixel: the warning line is the thinner one.
    pub fn width_tenths(&self) -> (r: u32)
        ensures
            r == (if *self == Stroke::Warning { 15u32 } else { 30u32 }),
    {
        match self {
            Stroke::Warning => 15,
            Stroke::Neutral => 30,
        }
    }
}

#[derive(Debug)]
pub struct Text {
    pub text: String,
}

/// Outline of a process cell.
#[derive(Debug, Clone, Copy, PartialEq, Eq, Structural)]
pub struct Body {
    pub stroke: Stroke,
    pub dashed: bool,
}

/// Line of a flow cell.
#[derive(Debug, Clone, Copy, PartialEq, Eq, Structural)]
pub struct Line {
    pub stroke: Stroke,
}

#[derive(Debug)]
pub struct Attrs {
    pub header_text: Option<Text>,
    pub text: Option<Text>,
    pub body: Option<Body>,
    pub line: Option<Line>,
}

/// Reference to another cell by its identifier.
#[derive(Debug)]
pub struct Endpoint {
    pub cell: String,
}

/// A renderable unit of a diagram: a process, a flow, or a trust-boundary box.
#[derive(Debug)]
pub struct Cell {
    pub position: Option<Position>,
    pub size: Option<Size>,
    pub attrs: Option<Attrs>,
    pub shape: Shape,
    pub id: String,
    pub z_index: u32,
    pub data: CellData,
    pub source: Option<Endpoint>,
    pub target: Option<Endpoint>,
    pub labels: Option<Vec<String>>,
}

/// A diagram of the threat model: its cells, keyed by title.
#[derive(Debug)]
pub struct Diagram {
    pub id: u32,
    pub title: String,
    pub diagram_type: String,
    pub placeholder: String,
    pub thumbnail: String,
    pub version: String,
    pub cells: Vec<Cell>,
}

/// Preview image of every diagram.
pub open spec fn thumbnail_path() -> Seq<char> {
    "./public/content/images/thumbnail.stride.jpg"@
}

/// `out` is what the build stages make of `nodes`, through the intermediate
/// cell lists `mapped` (one cell per node), `linked` (endpoints resolved) and
/// `placed` (laid out); `out` is `placed` followed by the boundary boxes.
pub open spec fn staged(
    mapped: Seq<Cell>,
    linked: Seq<Cell>,
    placed: Seq<Cell>,
    out: Seq<Cell>,
    nodes: Seq<Node>,
    catalog: Seq<Threat>,
    rings: Rings,
) -> bool {
    &&& cells_map_nodes(mapped, nodes, catalog)
    &&& linked.len() == mapped.len()
    &&& forall|k: int| 0 <= k < mapped.len() ==> resolved(#[trigger] mapped[k], linked[k], mapped, nodes)
    &&& placed.len() == linked.len()
    &&& forall|k: int| 0 <= k < linked.len() ==> laid_out(#[trigger] linked[k], placed[k], nodes, rings)
    &&& out.len() >= placed.len()
    &&& out.subrange(0, placed.len() as int) == placed
    &&& boxes_for(placed, nodes, out.subrange(placed.len() as int, out.len() as int))
}

impl Diagram {
    /// A diagram holding `cells`, with the header fields of `input`.
    fn assemble(index: usize, input: &InputDiagram, config: &Config, cells: Vec<Cell>) -> (r: Diagram)
        ensures
            r.id == #[verifier::truncate] (index as u32),
            r.title == input.title,
            r.diagram_type@ == "STRIDE"@,
            r.placeholder == input.description,
            r.thumbnail@ == thumbnail_path(),
            r.version == config.threat_dragon_version,
            r.cells == cells,
    {
        Diagram {
            id: #[verifier::truncate] (index as u32),
            title: input.title.clone(),
            diagram_type: String::from_str("STRIDE"),
            placeholder: input.description.clone(),
            thumbnail: String::from_str("./public/content/images/thumbnail.stride.jpg"),
            version: config.threat_dragon_version.clone(),
            cells,
        }
    }

    /// This diagram is the one built from `input`, the `index`-th diagram.
    pub open spec fn builds(self, index: usize, input: InputDiagram, config: Config, catalog: Seq<Threat>, rings: Rings) -> bool {
        &&& self.id == #[verifier::truncate] (index as u32)
        &&& self.title == input.title
        &&& self.diagram_type@ == "STRIDE"@
        &&& self.placeholder == input.description
        &&& self.thumbnail@ == thumbnail_path()
        &&& self.version == config.threat_dragon_version
        &&& exists|mapped: Seq<Cell>, linked: Seq<Cell>, placed: Seq<Cell>|
            staged(mapped, linked, placed, self.cells@, input.nodes@, catalog, rings)
    }

    /// Links every cell named after a flow to the cells of the flow's source
    /// and destination, by exact name, and labels it with the flow's name. A
    /// reference to a name that no cell has leaves that endpoint as it was.
    pub fn update_source_and_destination(cells: &mut Vec<Cell>, input_diagram: &InputDiagram)
        ensures
            final(cells)@.len() == old(cells)@.len(),
            forall|k: int| 0 <= k < old(cells)@.len() ==> resolved(
                #[trigger] old(cells)@[k],
                final(cells)@[k],
                old(cells)@,
                input_diagram.nodes@,
            ),
    {
        let nodes = &input_diagram.nodes;
        let (names, ids) = cell_keys(cells);
        let ghost start = cells@;
        let mut i: usize = 0;
        while i < cells.len()
            invariant
                cells@.len() == start.len(),
                i <= start.len(),
                names@.len() == start.len(),
                ids@.len() == start.len(),
                forall|k: int| 0 <= k < start.len() ==> #[trigger] names@[k] == start[k].data.name,
                forall|k: int| 0 <= k < start.len() ==> #[trigger] ids@[k] == start[k].id,
                forall|k: int| 0 <= k < i ==> resolved(#[trigger] start[k], cells@[k], start, nodes@),
                forall|k: int| i <= k < start.len() ==> #[trigger] cells@[k] == start[k],
            decreases start.len() - i,
        {
            match find_last_flow(nodes, &cells[i].data.name) {
                Some(j) => {
                    let flow = &nodes[j];
                    let old_source = cells[i].source.take();
                    let old_target = cells[i].target.take();
                    let source = lookup_endpoint(&names, &ids, &flow.source, old_source, Ghost(start));
                    let target = lookup_endpoint(&names, &ids, &flow.destination, old_target, Ghost(start));
                    cells[i].source = source;
                    cells[i].target = target;
                    cells[i].labels = Some(vec![flow.name.clone()]);
                    proof {
                        let c = cells@[i as int];
                        assert(c.data == start[i as int].data);
                        assert(c.labels matches Some(l) && l@ == seq![nodes@[j as int].name]);
                    }
                }
                None => {}
            }
            proof {
                assert(resolved(start[i as int], cells@[i as int], start, nodes@));
            }
            i = i + 1;
        }
    }

    /// Places every non-flow cell named after a node on the circle of its
    /// region, and gives it the square size.
    pub fn update_cells_position(cells: &mut Vec<Cell>, input_diagram: &InputDiagram, rings: &Rings)
        requires
            rings.covers(input_diagram.nodes@.len()),
        ensures
            final(cells)@.len() == old(cells)@.len(),
            forall|k: int| 0 <= k < old(cells)@.len() ==> laid_out(
                #[trigger] old(cells)@[k],
                final(cells)@[k],
                input_diagram.nodes@,
                *rings,
            ),
            forall|k: int| 0 <= k < old(cells)@.len() ==> within_canvas(#[trigger] old(cells)@[k]) ==> within_canvas(final(cells)@[k]),
    {
        let nodes = &input_diagram.nodes;
        let (node_keys, keys) = plan_regions(nodes);
        let ghost start = cells@;
        let mut i: usize = 0;
        while i < cells.len()
            invariant
                cells@.len() == start.len(),
                i <= start.len(),
                rings.covers(nodes@.len()),
                node_keys@.len() == nodes@.len(),
                forall|j: int| 0 <= j < nodes@.len() ==> (#[trigger] node_keys@[j])@ == region_key(nodes@[j]),
                string_views(keys@) == region_keys(nodes@),
                keys@.len() <= nodes@.len(),
                forall|k: int| 0 <= k < i ==> laid_out(#[trigger] start[k], cells@[k], nodes@, *rings),
                forall|k: int| 0 <= k < i ==> within_canvas(#[trigger] start[k]) ==> within_canvas(cells@[k]),
                forall|k: int| i <= k < start.len() ==> #[trigger] cells@[k] == start[k],
            decreases start.len() - i,
        {
            if cells[i].shape != Shape::Flow {
                match find_last_named(nodes, &cells[i].data.name) {
                    Some(j) => {
                        let p = position_of(nodes, &node_keys, &keys, j, rings);
                        cells[i].position = Some(p);
                        cells[i].size = Some(Size { width: CELL_SIDE, height: CELL_SIDE });
                    }
                    None => {}
                }
            }
            proof {
                assert(laid_out(start[i as int], cells@[i as int], nodes@, *rings));
                assert(within_canvas(start[i as int]) ==> within_canvas(cells@[i as int]));
            }
            i = i + 1;
        }
    }

    /// Appends one box per trust boundary around its positioned member cells.
    /// Boundaries come in order of first use; a boundary whose first node has
    /// no cell, or none of whose members is positioned, gets no box.
    pub fn add_trust_boundaries(cells: &mut Vec<Cell>, input_diagram: &InputDiagram)
        requires
            forall|k: int| 0 <= k < old(cells)@.len() ==> within_canvas(#[trigger] old(cells)@[k]),
        ensures
            final(cells)@.len() >= old(cells)@.len(),
            final(cells)@.subrange(0, old(cells)@.len() as int) == old(cells)@,
            boxes_for(old(cells)@, input_diagram.nodes@, final(cells)@.subrange(old(cells)@.len() as int, final(cells)@.len() as int)),
    {
        let nodes = &input_diagram.nodes;
        let names = collect_boundary_names(nodes);
        let ghost all = boundary_names(nodes@);
        let ghost pred = boxed_pred(cells@, nodes@);
        let mut boxes: Vec<Cell> = Vec::new();
        let mut i: usize = 0;
        while i < names.len()
            invariant
                i <= names@.len(),
                string_views(names@) == all,
                all == boundary_names(nodes@),
                pred == boxed_pred(cells@, nodes@),
                forall|k: int| 0 <= k < cells@.len() ==> within_canvas(#[trigger] cells@[k]),
                boxes@.len() == all.subrange(0, i as int).filter(pred).len(),
                forall|k: int| 0 <= k < boxes@.len() ==> is_boundary_box(
                    #[trigger] boxes@[k],
                    all.subrange(0, i as int).filter(pred)[k],
                    member_extent(cells@, nodes@, all.subrange(0, i as int).filter(pred)[k])->0,
                ),
            decreases names@.len() - i,
        {
            let b = &names[i];
            let ghost before = all.subrange(0, i as int).filter(pred);
            proof {
                reveal(Seq::filter);
                assert(all.subrange(0, i + 1).drop_last() == all.subrange(0, i as int));
                assert(all.subrange(0, i + 1).last() == b@);
                assert(string_views(names@)[i as int] == b@);
            }
            let anchored = anchor_present_exec(cells, nodes, b);
            let extent = member_extent_exec(cells, nodes, b);
            proof {
                assert(pred(b@) == (anchored && extent is Some));
            }
            if anchored {
                match extent {
                    Some(t) => {
                        let c = boundary_box(b, t);
                        boxes.push(c);
                        proof {
                            assert(all.subrange(0, i + 1).filter(pred) == before.push(b@));
                        }
                    }
                    None => {
                        proof {
                            assert(all.subrange(0, i + 1).filter(pred) == before);
                        }
                    }
                }
            } else {
                proof {
                    assert(all.subrange(0, i + 1).filter(pred) == before);
                }
            }
            i = i + 1;
        }
        proof {
            assert(all.subrange(0, all.len() as int) == all);
        }
        let ghost original = cells@;
        let ghost added = boxes@;
        cells.append(&mut boxes);
        proof {
            assert(cells@.subrange(0, original.len() as int) == original);
            assert(cells@.subrange(original.len() as int, cells@.len() as int) == added);
        }
    }
}

impl MappingFromInputDiagram for Diagram {
    fn from_input_diagram(
        index: usize,
        input_diagram: &InputDiagram,
        config: &Config,
        threats: &Vec<Threat>,
        rings: &Rings,
    ) -> (r: Self)
        ensures
            r.builds(index, *input_diagram, *config, threats@, *rings),
    {
        let mut cells = map_nodes(&input_diagram.nodes, config, threats);
        let ghost mapped = cells@;
        Diagram::update_source_and_destination(&mut cells, input_diagram);
        let ghost linked = cells@;
        Diagram::update_cells_position(&mut cells, input_diagram, rings);
        let ghost placed = cells@;
        proof {
            assert forall|k: int| 0 <= k < placed.len() implies within_canvas(#[trigger] placed[k]) by {
                assert(mapped[k].maps_node(input_diagram.nodes@[k], threats@));
                assert(within_canvas(mapped[k]));
                assert(resolved(mapped[k], linked[k], mapped, input_diagram.nodes@));
                assert(within_canvas(linked[k]));
            }
        }
        Diagram::add_trust_boundaries(&mut cells, input_diagram);
        proof {
            assert(staged(mapped, linked, placed, cells@, input_diagram.nodes@, threats@, *rings));
        }
        Diagram::assemble(index, input_diagram, config, cells)
    }
}

} // verus!
