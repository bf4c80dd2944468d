//! Trust-boundary boxes: one box per boundary, around its positioned members.

use vstd::prelude::*;
use crate::cell_data::CellData;
use crate::diagram::{Attrs, Cell, Position, Shape, Size, Text};
use crate::ids::{fresh_id, ID_LEN};
use crate::input::{contains_name, string_views, InputDiagram, Node};

verus! {

/// Margin around the members of a trust-boundary box.
pub const BOUNDARY_MARGIN: i64 = 40;

/// Bound on the coordinates and sizes that boundary synthesis accepts.
pub const COORD_LIMIT: i64 = 1_000_000_000;

/// The coordinates and size of the cell, if any, stay within `COORD_LIMIT`.
pub open spec fn within_canvas(c: Cell) -> bool {
    &&& (c.position matches Some(p) ==> -COORD_LIMIT <= p.x <= COORD_LIMIT && -COORD_LIMIT <= p.y <= COORD_LIMIT)
    &&& (c.size matches Some(s) ==> s.width <= COORD_LIMIT && s.height <= COORD_LIMIT)
}

/// The node lies in the trust boundary named `b`.
pub open spec fn in_boundary(n: Node, b: Seq<char>) -> bool {
    n.trust_boundary matches Some(t) && t@ == b
}

/// The distinct trust-boundary names of `nodes`, in order of first use.
pub open spec fn boundary_names(nodes: Seq<Node>) -> Seq<Seq<char>>
    decreases nodes.len(),
{
    if nodes.len() == 0 {
        Seq::empty()
    } else {
        let prev = boundary_names(nodes.drop_last());
        match nodes.last().trust_boundary {
            Some(b) => if prev.contains(b@) { prev } else { prev.push(b@) },
            None => prev,
        }
    }
}

/// Some node of boundary `b` is named `name`.
pub open spec fn named_in_boundary(nodes: Seq<Node>, b: Seq<char>, name: Seq<char>) -> bool {
    exists|i: int| 0 <= i < nodes.len() && in_boundary(nodes[i], b) && nodes[i].name@ == name
}

/// A positioned and sized cell of a member of boundary `b`.
pub open spec fn is_member_cell(c: Cell, nodes: Seq<Node>, b: Seq<char>) -> bool {
    &&& c.position is Some
    &&& c.size is Some
    &&& named_in_boundary(nodes, b, c.data.name@)
}

/// The first node of boundary `b` (its anchor) has a cell.
pub open spec fn anchor_present(cells: Seq<Cell>, nodes: Seq<Node>, b: Seq<char>) -> bool {
    exists|i: int|
        0 <= i < nodes.len() && in_boundary(nodes[i], b) && (forall|j: int| 0 <= j < i ==> !in_boundary(nodes[j], b))
            && exists|k: int| 0 <= k < cells.len() && #[trigger] cells[k].data.name@ == nodes[i].name@
}

/// Smallest corner, largest corner and largest size of a set of cells.
pub struct Extent {
    pub min_x: int,
    pub min_y: int,
    pub max_x: int,
    pub max_y: int,
    pub max_w: int,
    pub max_h: int,
}

pub open spec fn imin(a: int, b: int) -> int {
    if a <= b { a } else { b }
}

pub open spec fn imax(a: int, b: int) -> int {
    if a >= b { a } else { b }
}

pub open spec fn extend(e: Option<Extent>, p: Position, s: Size) -> Extent {
    match e {
        None => Extent { min_x: p.x as int, min_y: p.y as int, max_x: p.x as int, max_y: p.y as int, max_w: s.width as int, max_h: s.height as int },
        Some(e) => Extent {
            min_x: imin(e.min_x, p.x as int),
            min_y: imin(e.min_y, p.y as int),
            max_x: imax(e.max_x, p.x as int),
            max_y: imax(e.max_y, p.y as int),
            max_w: imax(e.max_w, s.width as int),
            max_h: imax(e.max_h, s.height as int),
        },
    }
}

/// The extent of the member cells of boundary `b`; `None` when it has none.
pub open spec fn member_extent(cells: Seq<Cell>, nodes: Seq<Node>, b: Seq<char>) -> Option<Extent>
    decreases cells.len(),
{
    if cells.len() == 0 {
        None
    } else {
        let prev = member_extent(cells.drop_last(), nodes, b);
        let c = cells.last();
        if is_member_cell(c, nodes, b) {
            Some(extend(prev, c.position->0, c.size->0))
        } else {
            prev
        }
    }
}

/// The boundaries that get a box: their anchor has a cell, and some member
/// cell is positioned.
pub open spec fn boxed_pred(cells: Seq<Cell>, nodes: Seq<Node>) -> spec_fn(Seq<char>) -> bool {
    |b: Seq<char>| anchor_present(cells, nodes, b) && member_extent(cells, nodes, b) is Some
}

pub open spec fn boxed_boundaries(cells: Seq<Cell>, nodes: Seq<Node>) -> Seq<Seq<char>> {
    boundary_names(nodes).filter(boxed_pred(cells, nodes))
}

/// `c` is the box of boundary `b` around the extent `e`, widened by the margin.
pub open spec fn is_boundary_box(c: Cell, b: Seq<char>, e: Extent) -> bool {
    &&& c.shape == Shape::TrustBoundaryBox
    &&& c.position == Some(Position { x: (e.min_x - BOUNDARY_MARGIN) as i64, y: (e.min_y - BOUNDARY_MARGIN) as i64 })
    &&& c.size == Some(Size {
        width: (e.max_x - e.min_x + e.max_w + 2 * BOUNDARY_MARGIN) as u64,
        height: (e.max_y - e.min_y + e.max_h + 2 * BOUNDARY_MARGIN) as u64,
    })
    &&& c.attrs matches Some(a) && a.text is None && a.body is None && a.line is None
        && (a.header_text matches Some(h) && h.text@ == b)
    &&& c.id@.len() == ID_LEN
    &&& c.z_index == 0
    &&& c.data.type_field@ == "tm.BoundaryBox"@
    &&& c.data.name@ == b
    &&& c.data.description@ == Seq::<char>::empty()
    &&& c.data.out_of_scope is None
    &&& c.data.reason_out_of_scope is None
    &&& !c.data.has_open_threats
    &&& c.data.threats@.len() == 0
    &&& c.source is None
    &&& c.target is None
    &&& c.labels is None
}

/// `boxes` holds one box per boxed boundary of `cells`, in order of first use.
pub open spec fn boxes_for(cells: Seq<Cell>, nodes: Seq<Node>, boxes: Seq<Cell>) -> bool {
    let names = boxed_boundaries(cells, nodes);
    &&& boxes.len() == names.len()
    &&& forall|k: int| 0 <= k < names.len() ==> is_boundary_box(
        #[trigger] boxes[k],
        names[k],
        member_extent(cells, nodes, names[k])->0,
    )
}


/// Whether some node of boundary `b` is named `name`.
pub(crate) fn named_in_boundary_exec(nodes: &Vec<Node>, b: &String, name: &String) -> (r: bool)
    ensures
        r == named_in_boundary(nodes@, b@, name@),
{
    let mut i: usize = 0;
    while i < nodes.len()
        invariant
            i <= nodes@.len(),
            forall|j: int| 0 <= j < i ==> !(in_boundary(nodes@[j], b@) && nodes@[j].name@ == name@),
        decreases nodes@.len() - i,
    {
        match &nodes[i].trust_boundary {
            Some(t) => {
                if *t == *b && nodes[i].name == *name {
                    return true;
                }
            }
            None => {}
        }
        i = i + 1;
    }
    false
}

/// The distinct trust-boundary names, in order of first use.
pub(crate) fn collect_boundary_names(nodes: &Vec<Node>) -> (r: Vec<String>)
    ensures
        string_views(r@) == boundary_names(nodes@),
{
    let mut names: Vec<String> = Vec::new();
    let mut i: usize = 0;
    while i < nodes.len()
        invariant
            i <= nodes@.len(),
            string_views(names@) == boundary_names(nodes@.subrange(0, i as int)),
        decreases nodes@.len() - i,
    {
        proof {
            assert(nodes@.subrange(0, i + 1).drop_last() == nodes@.subrange(0, i as int));
            assert(nodes@.subrange(0, i + 1).last() == nodes@[i as int]);
        }
        match &nodes[i].trust_boundary {
            Some(b) => {
                let seen = contains_name(&names, b);
                proof {
                    assert(seen == string_views(names@).contains(b@)) by {
                        if seen {
                            let j = choose|j: int| 0 <= j < names@.len() && names@[j]@ == b@;
                            assert(string_views(names@)[j] == b@);
                        }
                        if string_views(names@).contains(b@) {
                            let j = choose|j: int| 0 <= j < string_views(names@).len() && string_views(names@)[j] == b@;
                            assert(names@[j]@ == b@);
                        }
                    }
                }
                if !seen {
                    names.push(b.clone());
                    proof {
                        assert(string_views(names@) == string_views(names@.drop_last()).push(b@));
                    }
                }
            }
            None => {}
        }
        i = i + 1;
    }
    proof {
        assert(nodes@.subrange(0, nodes@.len() as int) == nodes@);
    }
    names
}

/// Whether the first node of boundary `b` has a cell.
pub(crate) fn anchor_present_exec(cells: &Vec<Cell>, nodes: &Vec<Node>, b: &String) -> (r: bool)
    ensures
        r == anchor_present(cells@, nodes@, b@),
{
    let mut i: usize = 0;
    while i < nodes.len()
        invariant
            i <= nodes@.len(),
            forall|j: int| 0 <= j < i ==> !in_boundary(nodes@[j], b@),
        decreases nodes@.len() - i,
    {
        let hit = match &nodes[i].trust_boundary {
            Some(t) => *t == *b,
            None => false,
        };
        if hit {
            let mut k: usize = 0;
            while k < cells.len()
                invariant
                    k <= cells@.len(),
                    i < nodes@.len(),
                    in_boundary(nodes@[i as int], b@),
                    forall|j: int| 0 <= j < i ==> !in_boundary(nodes@[j], b@),
                    forall|m: int| 0 <= m < k ==> cells@[m].data.name@ != nodes@[i as int].name@,
                decreases cells@.len() - k,
            {
                if cells[k].data.name == nodes[i].name {
                    proof {
                        assert(cells@[k as int].data.name@ == nodes@[i as int].name@);
                    }
                    return true;
                }
                k = k + 1;
            }
            proof {
                assert forall|i2: int|
                    0 <= i2 < nodes@.len() && in_boundary(nodes@[i2], b@) && (forall|j: int|
                        0 <= j < i2 ==> !in_boundary(nodes@[j], b@)) implies !exists|k2: int|
                        0 <= k2 < cells@.len() && #[trigger] cells@[k2].data.name@ == nodes@[i2].name@ by {
                    if i2 > i {
                        assert(!in_boundary(nodes@[i as int], b@));
                    }
                }
            }
            return false;
        }
        i = i + 1;
    }
    false
}

/// The extent of the member cells of boundary `b`, as machine integers.
pub(crate) fn member_extent_exec(cells: &Vec<Cell>, nodes: &Vec<Node>, b: &String) -> (r: Option<(i64, i64, i64, i64, u64, u64)>)
    requires
        forall|k: int| 0 <= k < cells@.len() ==> within_canvas(#[trigger] cells@[k]),
    ensures
        match (r, member_extent(cells@, nodes@, b@)) {
            (Some(t), Some(e)) => t.0 == e.min_x && t.1 == e.min_y && t.2 == e.max_x && t.3 == e.max_y
                && t.4 == e.max_w && t.5 == e.max_h,
            (None, None) => true,
            _ => false,
        },
        r matches Some(t) ==> -COORD_LIMIT <= t.0 <= t.2 <= COORD_LIMIT && -COORD_LIMIT <= t.1 <= t.3 <= COORD_LIMIT
            && t.4 <= COORD_LIMIT && t.5 <= COORD_LIMIT,
{
    let mut acc: Option<(i64, i64, i64, i64, u64, u64)> = None;
    let mut i: usize = 0;
    while i < cells.len()
        invariant
            i <= cells@.len(),
            forall|k: int| 0 <= k < cells@.len() ==> within_canvas(#[trigger] cells@[k]),
            match (acc, member_extent(cells@.subrange(0, i as int), nodes@, b@)) {
                (Some(t), Some(e)) => t.0 == e.min_x && t.1 == e.min_y && t.2 == e.max_x && t.3 == e.max_y
                    && t.4 == e.max_w && t.5 == e.max_h,
                (None, None) => true,
                _ => false,
            },
            acc matches Some(t) ==> -COORD_LIMIT <= t.0 <= t.2 <= COORD_LIMIT && -COORD_LIMIT <= t.1 <= t.3 <= COORD_LIMIT
                && t.4 <= COORD_LIMIT && t.5 <= COORD_LIMIT,
        decreases cells@.len() - i,
    {
        proof {
            assert(cells@.subrange(0, i + 1).drop_last() == cells@.subrange(0, i as int));
            assert(cells@.subrange(0, i + 1).last() == cells@[i as int]);
            assert(within_canvas(cells@[i as int]));
        }
        let c = &cells[i];
        match (c.position, c.size) {
            (Some(p), Some(s)) => {
                if named_in_boundary_exec(nodes, b, &c.data.name) {
                    acc = match acc {
                        None => Some((p.x, p.y, p.x, p.y, s.width, s.height)),
                        Some(t) => Some((
                            if p.x < t.0 { p.x } else { t.0 },
                            if p.y < t.1 { p.y } else { t.1 },
                            if p.x > t.2 { p.x } else { t.2 },
                            if p.y > t.3 { p.y } else { t.3 },
                            if s.width > t.4 { s.width } else { t.4 },
                            if s.height > t.5 { s.height } else { t.5 },
                        )),
                    };
                }
            }
            _ => {}
        }
        i = i + 1;
    }
    proof {
        assert(cells@.subrange(0, cells@.len() as int) == cells@);
    }
    acc
}

/// The box cell of boundary `b` around the given extent.
pub(crate) fn boundary_box(b: &String, t: (i64, i64, i64, i64, u64, u64)) -> (r: Cell)
    requires
        -COORD_LIMIT <= t.0 <= t.2 <= COORD_LIMIT,
        -COORD_LIMIT <= t.1 <= t.3 <= COORD_LIMIT,
        t.4 <= COORD_LIMIT,
        t.5 <= COORD_LIMIT,
    ensures
        is_boundary_box(
            r,
            b@,
            Extent { min_x: t.0 as int, min_y: t.1 as int, max_x: t.2 as int, max_y: t.3 as int, max_w: t.4 as int, max_h: t.5 as int },
        ),
{
    let width: u64 = (t.2 - t.0) as u64 + t.4 + 2 * (BOUNDARY_MARGIN as u64);
    let height: u64 = (t.3 - t.1) as u64 + t.5 + 2 * (BOUNDARY_MARGIN as u64);
    Cell {
        position: Some(Position { x: t.0 - BOUNDARY_MARGIN, y: t.1 - BOUNDARY_MARGIN }),
        size: Some(Size { width, height }),
        attrs: Some(Attrs { header_text: Some(Text { text: b.clone() }), text: None, body: None, line: None }),
        shape: Shape::TrustBoundaryBox,
        id: fresh_id(),
        z_index: 0,
        data: CellData {
            type_field: String::from_str("tm.BoundaryBox"),
            name: b.clone(),
            description: String::new(),
            out_of_scope: None,
            reason_out_of_scope: None,
            has_open_threats: false,
            threats: Vec::new(),
        },
        source: None,
        target: None,
        labels: None,
    }
}

} // verus!
