//! The cell of each node, with its style, and the resolution of flow
//! endpoints by exact name.

use vstd::prelude::*;
use crate::cell_data::{resolved_entries, CellData};
use crate::config::Config;
use crate::diagram::{Attrs, Body, Cell, Endpoint, Line, Shape, Stroke, Text};
use crate::ids::{fresh_id, ID_LEN};
use crate::input::{InputDiagram, Node, TypeNode};
use crate::process::{MappingFromInputNode, MappingFromInputNodeAndThreats};
use crate::threat::Threat;

verus! {

impl MappingFromInputNode for Text {
    fn from_input_diagram(input_node: &Node, config: &Config) -> (r: Self)
        ensures
            r.text == input_node.name,
    {
        Text { text: input_node.name.clone() }
    }
}

/// The outline style of an element: a warning when it has threats.
pub open spec fn stroke_for(has_threats: bool) -> Stroke {
    if has_threats { Stroke::Warning } else { Stroke::Neutral }
}

/// Style attributes of a node's cell: a process gets its name as text and an
/// outline, dashed when it is out of scope; a flow gets a line.
pub open spec fn attrs_for(node: Node, has_threats: bool) -> Attrs {
    match node.type_node {
        TypeNode::Process => Attrs {
            header_text: None,
            text: Some(Text { text: node.name }),
            body: Some(Body { stroke: stroke_for(has_threats), dashed: node.is_out_of_scope() }),
            line: None,
        },
        TypeNode::Flow => Attrs {
            header_text: None,
            text: None,
            body: None,
            line: Some(Line { stroke: stroke_for(has_threats) }),
        },
    }
}

impl Attrs {
    pub fn from_node(input_node: &Node, config: &Config, has_threats: bool) -> (r: Self)
        ensures
            r == attrs_for(*input_node, has_threats),
    {
        let stroke = if has_threats { Stroke::Warning } else { Stroke::Neutral };
        match input_node.type_node {
            TypeNode::Process => Attrs {
                header_text: None,
                text: Some(Text::from_input_diagram(input_node, config)),
                body: Some(Body { stroke, dashed: input_node.out_of_scope == Some(true) }),
                line: None,
            },
            TypeNode::Flow => Attrs { header_text: None, text: None, body: None, line: Some(Line { stroke }) },
        }
    }
}

impl Cell {
    /// The cell that mapping `node` against `catalog` gives, up to identifiers:
    /// no position, size or endpoints yet.
    pub open spec fn maps_node(self, node: Node, catalog: Seq<Threat>) -> bool {
        &&& self.position is None
        &&& self.size is None
        &&& self.attrs == Some(attrs_for(node, resolved_entries(catalog, node.threats@).len() > 0))
        &&& self.shape == Shape::of_kind(node.type_node)
        &&& self.id@.len() == ID_LEN
        &&& self.z_index == 1
        &&& self.data.maps_node(node, catalog)
        &&& self.source is None
        &&& self.target is None
        &&& self.labels is None
    }

    /// Every field but the identifiers of the cell and of its threats.
    pub open spec fn same_except_ids(self, o: Cell) -> bool {
        &&& self.position == o.position
        &&& self.size == o.size
        &&& self.attrs == o.attrs
        &&& self.shape == o.shape
        &&& self.z_index == o.z_index
        &&& self.data.same_except_ids(o.data)
        &&& self.source == o.source
        &&& self.target == o.target
        &&& self.labels == o.labels
    }
}

impl MappingFromInputNodeAndThreats for Cell {
    fn from_input_diagram(input_node: &Node, config: &Config, threats: &Vec<Threat>) -> (r: Self)
        ensures
            r.maps_node(*input_node, threats@),
    {
        let data = CellData::from_input_diagram(input_node, config, threats);
        let has_threats = data.threats.len() > 0;
        Cell {
            position: None,
            size: None,
            attrs: Some(Attrs::from_node(input_node, config, has_threats)),
            shape: match input_node.type_node {
                TypeNode::Process => Shape::Process,
                TypeNode::Flow => Shape::Flow,
            },
            id: fresh_id(),
            z_index: 1,
            data,
            source: None,
            target: None,
            labels: None,
        }
    }
}

/// `cells` maps `nodes` one for one.
pub open spec fn cells_map_nodes(cells: Seq<Cell>, nodes: Seq<Node>, catalog: Seq<Threat>) -> bool {
    cells.len() == nodes.len() && forall|k: int| 0 <= k < nodes.len() ==> #[trigger] cells[k].maps_node(nodes[k], catalog)
}

/// Maps every node to a cell.
pub fn map_nodes(nodes: &Vec<Node>, config: &Config, threats: &Vec<Threat>) -> (r: Vec<Cell>)
    ensures
        cells_map_nodes(r@, nodes@, threats@),
{
    let mut cells: Vec<Cell> = Vec::new();
    let mut i: usize = 0;
    while i < nodes.len()
        invariant
            i <= nodes@.len(),
            cells@.len() == i,
            forall|k: int| 0 <= k < i ==> #[trigger] cells@[k].maps_node(nodes@[k], threats@),
        decreases nodes@.len() - i,
    {
        let c = Cell::from_input_diagram(&nodes[i], config, threats);
        cells.push(c);
        i = i + 1;
    }
    cells
}

/// Identifier of the last cell named `name`.
pub open spec fn id_of(cells: Seq<Cell>, name: Seq<char>) -> Option<String>
    decreases cells.len(),
{
    if cells.len() == 0 {
        None
    } else if cells.last().data.name@ == name {
        Some(cells.last().id)
    } else {
        id_of(cells.drop_last(), name)
    }
}

/// Index of the last flow node named `name`.
pub open spec fn last_flow_named(nodes: Seq<Node>, name: Seq<char>) -> Option<int>
    decreases nodes.len(),
{
    if nodes.len() == 0 {
        None
    } else if nodes.last().name@ == name && nodes.last().type_node == TypeNode::Flow {
        Some(nodes.len() - 1)
    } else {
        last_flow_named(nodes.drop_last(), name)
    }
}

/// The endpoint for a referenced node name: the cell of that name when there
/// is one, else `prev`.
pub open spec fn endpoint_for(cells: Seq<Cell>, name: Option<String>, prev: Option<Endpoint>) -> Option<Endpoint> {
    match name {
        Some(n) => match id_of(cells, n@) {
            Some(id) => Some(Endpoint { cell: id }),
            None => prev,
        },
        None => prev,
    }
}

/// `new` is `old` after endpoint resolution against the cells `all`: a cell
/// named after a flow gets the cells of the flow's source and destination as
/// endpoints, where they exist, and the flow's name as its label.
pub open spec fn resolved(old: Cell, new: Cell, all: Seq<Cell>, nodes: Seq<Node>) -> bool {
    match last_flow_named(nodes, old.data.name@) {
        Some(j) => {
            &&& new == Cell {
                source: endpoint_for(all, nodes[j].source, old.source),
                target: endpoint_for(all, nodes[j].destination, old.target),
                labels: new.labels,
                ..old
            }
            &&& new.labels matches Some(l) && l@ == seq![nodes[j].name]
        },
        None => new == old,
    }
}

/// Index of the last flow node named `name`.
pub(crate) fn find_last_flow(nodes: &Vec<Node>, name: &String) -> (r: Option<usize>)
    ensures
        match r {
            Some(j) => last_flow_named(nodes@, name@) == Some(j as int) && j < nodes@.len(),
            None => last_flow_named(nodes@, name@) is None,
        },
{
    let mut i: usize = nodes.len();
    proof {
        assert(nodes@.subrange(0, i as int) == nodes@);
    }
    while i > 0
        invariant
            i <= nodes@.len(),
            last_flow_named(nodes@, name@) == last_flow_named(nodes@.subrange(0, i as int), name@),
        decreases i,
    {
        proof {
            assert(nodes@.subrange(0, i as int).drop_last() == nodes@.subrange(0, i - 1));
        }
        if nodes[i - 1].name == *name && nodes[i - 1].type_node == TypeNode::Flow {
            return Some(i - 1);
        }
        i = i - 1;
    }
    None
}

/// Names and identifiers of the cells, in order.
pub(crate) fn cell_keys(cells: &Vec<Cell>) -> (r: (Vec<String>, Vec<String>))
    ensures
        r.0@.len() == cells@.len(),
        r.1@.len() == cells@.len(),
        forall|k: int| 0 <= k < cells@.len() ==> #[trigger] r.0@[k] == cells@[k].data.name,
        forall|k: int| 0 <= k < cells@.len() ==> #[trigger] r.1@[k] == cells@[k].id,
{
    let mut names: Vec<String> = Vec::new();
    let mut ids: Vec<String> = Vec::new();
    let mut i: usize = 0;
    while i < cells.len()
        invariant
            i <= cells@.len(),
            names@.len() == i,
            ids@.len() == i,
            forall|k: int| 0 <= k < i ==> #[trigger] names@[k] == cells@[k].data.name,
            forall|k: int| 0 <= k < i ==> #[trigger] ids@[k] == cells@[k].id,
        decreases cells@.len() - i,
    {
        names.push(cells[i].data.name.clone());
        ids.push(cells[i].id.clone());
        i = i + 1;
    }
    (names, ids)
}

/// The endpoint for an optional node name, looked up among the cell names.
pub(crate) fn lookup_endpoint(
    names: &Vec<String>,
    ids: &Vec<String>,
    name: &Option<String>,
    prev: Option<Endpoint>,
    Ghost(cells): Ghost<Seq<Cell>>,
) -> (r: Option<Endpoint>)
    requires
        names@.len() == cells.len(),
        ids@.len() == cells.len(),
        forall|k: int| 0 <= k < cells.len() ==> #[trigger] names@[k] == cells[k].data.name,
        forall|k: int| 0 <= k < cells.len() ==> #[trigger] ids@[k] == cells[k].id,
    ensures
        r == endpoint_for(cells, *name, prev),
{
    match name {
        None => prev,
        Some(n) => {
            let mut i: usize = names.len();
            proof {
                assert(cells.subrange(0, i as int) == cells);
            }
            while i > 0
                invariant
                    i <= cells.len(),
                    names@.len() == cells.len(),
                    ids@.len() == cells.len(),
                    forall|k: int| 0 <= k < cells.len() ==> #[trigger] names@[k] == cells[k].data.name,
        forall|k: int| 0 <= k < cells.len() ==> #[trigger] ids@[k] == cells[k].id,
                    id_of(cells, n@) == id_of(cells.subrange(0, i as int), n@),
                    *name == Some(*n),
                decreases i,
            {
                proof {
                    assert(cells.subrange(0, i as int).drop_last() == cells.subrange(0, i - 1));
                    assert(cells.subrange(0, i as int).last() == cells[i - 1]);
                    assert(names@[i - 1] == cells[i - 1].data.name);
                    assert(ids@[i - 1] == cells[i - 1].id);
                }
                if names[i - 1] == *n {
                    let id = ids[i - 1].clone();
                    proof {
                        assert(id_of(cells.subrange(0, i as int), n@) == Some(cells[i - 1].id));
                        assert(*name == Some(*n));
                        assert(id == cells[i - 1].id);
                    }
                    return Some(Endpoint { cell: id });
                }
                i = i - 1;
            }
            prev
        }
    }
}

} // verus!
