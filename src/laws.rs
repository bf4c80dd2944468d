//! Properties that relate the build stages, proved over their contracts.

use vstd::prelude::*;
use crate::cell_data::{last_match, resolved_entries};
use crate::config::Diagrams;
use crate::boundary::{is_boundary_box, is_member_cell, member_extent, within_canvas, BOUNDARY_MARGIN, COORD_LIMIT};
use crate::diagram::{staged, Cell, Endpoint};
use crate::layout::{laid_out, last_named, Rings};
use crate::mapping::{cells_map_nodes, endpoint_for, id_of, last_flow_named, resolved};
use crate::input::{
    child_nodes, flow_pred, member_pred, names_contain, names_contain_opt, InputDiagram, Node, TypeNode,
};
use crate::threat::Threat;

verus! {

/// Every node of a child diagram belongs there: a process is one of the
/// declared members, and a flow has both endpoints among the declared members.
pub proof fn lemma_child_containment(parent: InputDiagram, decl: Diagrams, child: InputDiagram)
    requires
        parent.is_child(decl, child),
    ensures
        forall|k: int| 0 <= k < child.nodes@.len() ==> {
            let n = #[trigger] child.nodes@[k];
            &&& n.type_node == TypeNode::Process ==> names_contain(decl.nodes@, n.name@)
            &&& n.type_node == TypeNode::Flow ==> names_contain_opt(decl.nodes@, n.source)
                && names_contain_opt(decl.nodes@, n.destination)
        },
{
    let names = decl.nodes@;
    let members = parent.nodes@.filter(member_pred(names));
    let flows = parent.nodes@.filter(flow_pred(names));
    assert(child_nodes(parent.nodes@, names) == members + flows);
    assert forall|k: int| 0 <= k < child.nodes@.len() implies {
        let n = #[trigger] child.nodes@[k];
        &&& n.type_node == TypeNode::Process ==> names_contain(names, n.name@)
        &&& n.type_node == TypeNode::Flow ==> names_contain_opt(names, n.source) && names_contain_opt(names, n.destination)
    } by {
        let n = child.nodes@[k];
        assert(n.equiv((members + flows)[k]));
        if k < members.len() {
            parent.nodes@.lemma_filter_pred(member_pred(names), k);
            assert(member_pred(names)(members[k]));
        } else {
            parent.nodes@.lemma_filter_pred(flow_pred(names), k - members.len());
            assert(flow_pred(names)(flows[k - members.len()]));
        }
    }
}

/// A title resolves to the last catalog entry that has it.
pub proof fn lemma_last_entry_wins(catalog: Seq<Threat>, j: int)
    requires
        0 <= j < catalog.len(),
        forall|t: int| j < t < catalog.len() ==> catalog[t].title@ != catalog[j].title@,
    ensures
        last_match(catalog, catalog[j].title@) == Some(catalog[j]),
    decreases catalog.len(),
{
    if j < catalog.len() - 1 {
        let rest = catalog.drop_last();
        assert(catalog.last() == catalog[catalog.len() - 1]);
        assert(rest[j] == catalog[j]);
        lemma_last_entry_wins(rest, j);
    }
}

/// Over cells that map the nodes one for one, the identifier found for a
/// name is that of the cell of the last node with that name.
pub proof fn lemma_id_of_mapped(cells: Seq<Cell>, nodes: Seq<Node>, catalog: Seq<Threat>, name: Seq<char>)
    requires
        cells_map_nodes(cells, nodes, catalog),
    ensures
        last_named(nodes, name) matches Some(i) ==> 0 <= i < nodes.len(),
        match last_named(nodes, name) {
            Some(i) => id_of(cells, name) == Some(cells[i].id),
            None => id_of(cells, name) is None,
        },
    decreases nodes.len(),
{
    if nodes.len() > 0 {
        let last = nodes.len() - 1;
        assert(cells[last].maps_node(nodes[last], catalog));
        assert(cells.last() == cells[last]);
        let cs = cells.drop_last();
        let ns = nodes.drop_last();
        assert forall|k: int| 0 <= k < ns.len() implies #[trigger] cs[k].maps_node(ns[k], catalog) by {
            assert(cells[k].maps_node(nodes[k], catalog));
        }
        lemma_id_of_mapped(cs, ns, catalog, name);
        assert(nodes.last() == nodes[last]);
        if nodes.last().name@ != name {
            match last_named(ns, name) {
                Some(i) => {
                    assert(cs[i] == cells[i]);
                }
                None => {}
            }
        }
    }
}

/// After resolution, a flow whose source and destination name nodes of the
/// diagram points at the cells generated for those nodes.
pub proof fn lemma_endpoints_resolved(
    mapped: Seq<Cell>,
    linked: Seq<Cell>,
    nodes: Seq<Node>,
    catalog: Seq<Threat>,
    k: int,
    src: int,
    dst: int,
)
    requires
        cells_map_nodes(mapped, nodes, catalog),
        linked.len() == mapped.len(),
        forall|m: int| 0 <= m < mapped.len() ==> resolved(#[trigger] mapped[m], linked[m], mapped, nodes),
        0 <= k < nodes.len(),
        last_flow_named(nodes, nodes[k].name@) == Some(k),
        nodes[k].source matches Some(s) && last_named(nodes, s@) == Some(src),
        nodes[k].destination matches Some(d) && last_named(nodes, d@) == Some(dst),
    ensures
        linked[k].source == Some(Endpoint { cell: mapped[src].id }),
        linked[k].target == Some(Endpoint { cell: mapped[dst].id }),
{
    assert(mapped[k].maps_node(nodes[k], catalog));
    assert(resolved(mapped[k], linked[k], mapped, nodes));
    lemma_id_of_mapped(mapped, nodes, catalog, nodes[k].source->0@);
    lemma_id_of_mapped(mapped, nodes, catalog, nodes[k].destination->0@);
}

/// A flow whose destination names no cell keeps an unset target.
pub proof fn lemma_dangling_target(old: Cell, new: Cell, all: Seq<Cell>, nodes: Seq<Node>)
    requires
        resolved(old, new, all, nodes),
        old.target is None,
        last_flow_named(nodes, old.data.name@) matches Some(j) && (nodes[j].destination matches Some(d) && id_of(all, d@) is None),
    ensures
        new.target is None,
{
}

/// Layout depends on nothing but the nodes and the circle points: two cells
/// that agree in kind, name, position and size are placed alike.
pub proof fn lemma_layout_deterministic(a_old: Cell, a_new: Cell, b_old: Cell, b_new: Cell, nodes: Seq<Node>, rings: Rings)
    requires
        laid_out(a_old, a_new, nodes, rings),
        laid_out(b_old, b_new, nodes, rings),
        a_old.shape == b_old.shape,
        a_old.data.name@ == b_old.data.name@,
        a_old.position == b_old.position,
        a_old.size == b_old.size,
    ensures
        a_new.position == b_new.position,
        a_new.size == b_new.size,
{
}

/// Mapping the same nodes against the same catalog twice gives cells that
/// differ in nothing but their identifiers.
pub proof fn lemma_mapping_idempotent(a: Seq<Cell>, b: Seq<Cell>, nodes: Seq<Node>, catalog: Seq<Threat>)
    requires
        cells_map_nodes(a, nodes, catalog),
        cells_map_nodes(b, nodes, catalog),
    ensures
        a.len() == b.len(),
        forall|k: int| 0 <= k < a.len() ==> (#[trigger] a[k]).same_except_ids(b[k]),
{
    assert forall|k: int| 0 <= k < a.len() implies (#[trigger] a[k]).same_except_ids(b[k]) by {
        assert(a[k].maps_node(nodes[k], catalog));
        assert(b[k].maps_node(nodes[k], catalog));
        assert forall|t: int| 0 <= t < a[k].data.threats@.len() implies #[trigger] a[k].data.threats@[t].same_except_id(
            b[k].data.threats@[t],
        ) by {
            let entries = resolved_entries(catalog, nodes[k].threats@);
            assert(a[k].data.threats@[t].materializes(entries[t]));
            assert(b[k].data.threats@[t].materializes(entries[t]));
        }
    }
}

/// The extent of a boundary's members covers each member cell.
pub proof fn lemma_extent_covers(cells: Seq<Cell>, nodes: Seq<Node>, b: Seq<char>, k: int)
    requires
        0 <= k < cells.len(),
        is_member_cell(cells[k], nodes, b),
    ensures
        member_extent(cells, nodes, b) matches Some(e) && {
            let p = cells[k].position->0;
            let s = cells[k].size->0;
            &&& e.min_x <= p.x <= e.max_x
            &&& e.min_y <= p.y <= e.max_y
            &&& s.width <= e.max_w
            &&& s.height <= e.max_h
        },
    decreases cells.len(),
{
    let rest = cells.drop_last();
    if k < cells.len() - 1 {
        assert(rest[k] == cells[k]);
        lemma_extent_covers(rest, nodes, b, k);
    }
}

/// The extent of cells within the canvas lies within the canvas.
pub proof fn lemma_extent_bounded(cells: Seq<Cell>, nodes: Seq<Node>, b: Seq<char>)
    requires
        forall|k: int| 0 <= k < cells.len() ==> within_canvas(#[trigger] cells[k]),
    ensures
        member_extent(cells, nodes, b) matches Some(e) ==> {
            &&& -COORD_LIMIT <= e.min_x <= e.max_x <= COORD_LIMIT
            &&& -COORD_LIMIT <= e.min_y <= e.max_y <= COORD_LIMIT
            &&& 0 <= e.max_w <= COORD_LIMIT
            &&& 0 <= e.max_h <= COORD_LIMIT
        },
    decreases cells.len(),
{
    if cells.len() > 0 {
        let rest = cells.drop_last();
        assert forall|k: int| 0 <= k < rest.len() implies within_canvas(#[trigger] rest[k]) by {
            assert(rest[k] == cells[k]);
        }
        lemma_extent_bounded(rest, nodes, b);
        assert(within_canvas(cells[cells.len() - 1]));
    }
}

/// A trust-boundary box encloses each member cell with the margin to spare
/// on every side.
pub proof fn lemma_box_encloses_members(cells: Seq<Cell>, nodes: Seq<Node>, b: Seq<char>, bx: Cell, k: int)
    requires
        0 <= k < cells.len(),
        forall|m: int| 0 <= m < cells.len() ==> within_canvas(#[trigger] cells[m]),
        is_member_cell(cells[k], nodes, b),
        is_boundary_box(bx, b, member_extent(cells, nodes, b)->0),
    ensures
        ({
            let p = cells[k].position->0;
            let s = cells[k].size->0;
            let q = bx.position->0;
            let z = bx.size->0;
            &&& q.x + BOUNDARY_MARGIN <= p.x
            &&& q.y + BOUNDARY_MARGIN <= p.y
            &&& p.x + s.width + BOUNDARY_MARGIN <= q.x + z.width
            &&& p.y + s.height + BOUNDARY_MARGIN <= q.y + z.height
        }),
{
    lemma_extent_covers(cells, nodes, b, k);
    lemma_extent_bounded(cells, nodes, b);
}

/// The index of the last flow of a name lies within the nodes.
pub proof fn lemma_last_flow_in_range(nodes: Seq<Node>, name: Seq<char>)
    ensures
        last_flow_named(nodes, name) matches Some(j) ==> 0 <= j < nodes.len(),
    decreases nodes.len(),
{
    if nodes.len() > 0 {
        lemma_last_flow_in_range(nodes.drop_last(), name);
    }
}

/// An identifier found by name belongs to one of the cells searched.
pub proof fn lemma_id_of_member(cells: Seq<Cell>, name: Seq<char>)
    ensures
        id_of(cells, name) matches Some(id) ==> exists|i: int| 0 <= i < cells.len() && #[trigger] cells[i].id == id,
    decreases cells.len(),
{
    if cells.len() > 0 {
        let rest = cells.drop_last();
        lemma_id_of_member(rest, name);
        if cells.last().data.name@ != name {
            if id_of(rest, name) is Some {
                let i = choose|i: int| 0 <= i < rest.len() && #[trigger] rest[i].id == id_of(rest, name)->0;
                assert(cells[i] == rest[i]);
            }
        } else {
            assert(cells[cells.len() - 1].id == cells.last().id);
        }
    }
}

/// An endpoint found among `mapped` names a cell of `out`, which keeps their identifiers.
proof fn endpoint_in_cells(mapped: Seq<Cell>, out: Seq<Cell>, name: Option<String>)
    requires
        out.len() >= mapped.len(),
        forall|i: int| 0 <= i < mapped.len() ==> #[trigger] out[i].id == mapped[i].id,
    ensures
        endpoint_for(mapped, name, None) matches Some(e) ==> exists|i: int| 0 <= i < out.len() && #[trigger] out[i].id == e.cell,
{
    if let Some(n) = name {
        lemma_id_of_member(mapped, n@);
        if let Some(id) = id_of(mapped, n@) {
            let i = choose|i: int| 0 <= i < mapped.len() && #[trigger] mapped[i].id == id;
            assert(out[i].id == id);
        }
    }
}

/// In a built diagram, every endpoint that is set refers to the identifier
/// of one of the diagram's own cells.
pub proof fn lemma_endpoints_within_diagram(
    mapped: Seq<Cell>,
    linked: Seq<Cell>,
    placed: Seq<Cell>,
    out: Seq<Cell>,
    nodes: Seq<Node>,
    catalog: Seq<Threat>,
    rings: Rings,
    k: int,
)
    requires
        staged(mapped, linked, placed, out, nodes, catalog, rings),
        0 <= k < out.len(),
    ensures
        out[k].source matches Some(e) ==> exists|i: int| 0 <= i < out.len() && #[trigger] out[i].id == e.cell,
        out[k].target matches Some(e) ==> exists|i: int| 0 <= i < out.len() && #[trigger] out[i].id == e.cell,
{
    assert forall|i: int| 0 <= i < mapped.len() implies #[trigger] out[i].id == mapped[i].id by {
        assert(resolved(mapped[i], linked[i], mapped, nodes));
        assert(laid_out(linked[i], placed[i], nodes, rings));
        assert(out[i] == placed[i]);
    }
    if k >= placed.len() {
        let boxes = out.subrange(placed.len() as int, out.len() as int);
        assert(out[k] == boxes[k - placed.len()]);
    } else {
        assert(out[k] == placed[k]);
        assert(mapped[k].maps_node(nodes[k], catalog));
        assert(resolved(mapped[k], linked[k], mapped, nodes));
        assert(laid_out(linked[k], placed[k], nodes, rings));
        lemma_last_flow_in_range(nodes, mapped[k].data.name@);
        match last_flow_named(nodes, mapped[k].data.name@) {
            Some(j) => {
                endpoint_in_cells(mapped, out, nodes[j].source);
                endpoint_in_cells(mapped, out, nodes[j].destination);
            }
            None => {}
        }
    }
}

} // verus!
