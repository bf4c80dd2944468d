//! Circular layout: regions on a large circle around the center, members
//! on a small circle around their region. The points of both circles are
//! given as whole-pixel tables (`Rings`), computed by the caller.

use vstd::prelude::*;
use crate::diagram::{Cell, Position, Shape, Size};
use crate::input::{contains_name, string_views, Node};

verus! {

/// Radius of the circle on which regions are placed.
pub const REGION_CIRCLE_RADIUS: i64 = 450;

/// Radius of the circle on which the members of a region are placed.
pub const MEMBER_CIRCLE_RADIUS: i64 = 120;

/// Points on the two layout circles, relative to their centers: `regions@[n]@[k]`
/// is the `k`-th of `n` evenly spaced points on the region circle, at angle
/// `2 * pi * k / n`; `members` holds the same for the member circle.
pub struct Rings {
    pub regions: Vec<Vec<Position>>,
    pub members: Vec<Vec<Position>>,
}

pub open spec fn within_radius(p: Position, r: i64) -> bool {
    -r <= p.x <= r && -r <= p.y <= r
}

/// Row `n` of `rows` holds `n` points within `r` of the center, for every row.
pub open spec fn rows_wf(rows: Seq<Vec<Position>>, r: i64) -> bool {
    &&& forall|n: int| 0 <= n < rows.len() ==> (#[trigger] rows[n])@.len() == n
    &&& forall|n: int, k: int| 0 <= n < rows.len() && 0 <= k < rows[n]@.len() ==> within_radius(#[trigger] rows[n]@[k], r)
}

/// Whether every row of `rows` holds as many points as its index, each within `r`.
pub(crate) fn rows_wf_exec(rows: &Vec<Vec<Position>>, r: i64) -> (ok: bool)
    requires
        r >= 0,
    ensures
        ok == rows_wf(rows@, r),
{
    let mut n: usize = 0;
    while n < rows.len()
        invariant
            n <= rows@.len(),
            r >= 0,
            forall|m: int| 0 <= m < n ==> (#[trigger] rows@[m])@.len() == m,
            forall|m: int, k: int| 0 <= m < n && 0 <= k < rows@[m]@.len() ==> within_radius(#[trigger] rows@[m]@[k], r),
        decreases rows@.len() - n,
    {
        let row = &rows[n];
        if row.len() != n {
            return false;
        }
        let mut k: usize = 0;
        while k < row.len()
            invariant
                k <= row@.len(),
                n < rows@.len(),
                *row == rows@[n as int],
                r >= 0,
                forall|u: int| 0 <= u < k ==> within_radius(#[trigger] row@[u], r),
            decreases row@.len() - k,
        {
            let p = row[k];
            if !(-r <= p.x && p.x <= r && -r <= p.y && p.y <= r) {
                proof {
                    assert(!within_radius(rows@[n as int]@[k as int], r));
                }
                return false;
            }
            k = k + 1;
        }
        n = n + 1;
    }
    true
}

impl Rings {
    /// Whether these rings cover diagrams of up to `n` nodes.
    pub fn covers_exec(&self, n: usize) -> (r: bool)
        ensures
            r == self.covers(n as nat),
    {
        self.regions.len() > n && self.members.len() > n && rows_wf_exec(&self.regions, REGION_CIRCLE_RADIUS)
            && rows_wf_exec(&self.members, MEMBER_CIRCLE_RADIUS)
    }

    /// Rows for every count up to `n`, each point within its circle.
    pub open spec fn covers(self, n: nat) -> bool {
        &&& self.regions@.len() > n
        &&& self.members@.len() > n
        &&& rows_wf(self.regions@, REGION_CIRCLE_RADIUS)
        &&& rows_wf(self.members@, MEMBER_CIRCLE_RADIUS)
    }
}


/// Center of the whole layout.
pub const LAYOUT_CENTER_X: i64 = 500;
pub const LAYOUT_CENTER_Y: i64 = 500;

/// Side of the square that every placed cell gets.
pub const CELL_SIDE: u64 = 140;

/// The layout region of a node: in-scope nodes go to "Center"; out-of-scope
/// nodes go to their trust boundary, or to "South" when they have none.
pub open spec fn region_key(n: Node) -> Seq<char> {
    if n.out_of_scope == Some(true) {
        match n.trust_boundary {
            Some(b) => b@,
            None => "South"@,
        }
    } else {
        "Center"@
    }
}

/// The distinct regions of `nodes`, in order of discovery.
pub open spec fn region_keys(nodes: Seq<Node>) -> Seq<Seq<char>>
    decreases nodes.len(),
{
    if nodes.len() == 0 {
        Seq::empty()
    } else {
        let prev = region_keys(nodes.drop_last());
        if prev.contains(region_key(nodes.last())) { prev } else { prev.push(region_key(nodes.last())) }
    }
}

/// How many nodes of `nodes` lie in region `key`.
pub open spec fn count_in_region(nodes: Seq<Node>, key: Seq<char>) -> nat
    decreases nodes.len(),
{
    if nodes.len() == 0 {
        0
    } else {
        count_in_region(nodes.drop_last(), key) + if region_key(nodes.last()) == key { 1nat } else { 0nat }
    }
}

/// How many of `keys` are not the "Center" region.
pub open spec fn non_center_count(keys: Seq<Seq<char>>) -> nat
    decreases keys.len(),
{
    if keys.len() == 0 {
        0
    } else {
        non_center_count(keys.drop_last()) + if keys.last() != "Center"@ { 1nat } else { 0nat }
    }
}

/// Index of the first occurrence of `key` in `keys`.
pub open spec fn first_index(keys: Seq<Seq<char>>, key: Seq<char>) -> int {
    choose|t: int| 0 <= t < keys.len() && keys[t] == key && forall|u: int| 0 <= u < t ==> keys[u] != key
}

/// Index of the last node named `name`.
pub open spec fn last_named(nodes: Seq<Node>, name: Seq<char>) -> Option<int>
    decreases nodes.len(),
{
    if nodes.len() == 0 {
        None
    } else if nodes.last().name@ == name {
        Some(nodes.len() - 1)
    } else {
        last_named(nodes.drop_last(), name)
    }
}

/// Center of region `key`: "Center" is pinned at the layout center; every
/// other region takes the next point of the region circle, counted among the
/// regions other than "Center", out of as many points as there are regions.
pub open spec fn region_center(nodes: Seq<Node>, rings: Rings, key: Seq<char>) -> (int, int) {
    let keys = region_keys(nodes);
    if key == "Center"@ {
        (LAYOUT_CENTER_X as int, LAYOUT_CENTER_Y as int)
    } else {
        let p = rings.regions@[keys.len() as int]@[non_center_count(keys.subrange(0, first_index(keys, key))) as int];
        (LAYOUT_CENTER_X + p.x, LAYOUT_CENTER_Y + p.y)
    }
}

/// Position of node `j`: the `rank`-th of `m` points on the member circle
/// around its region's center, where `rank` counts from 1 the nodes of that
/// region up to `j`, and `m` is the size of the region.
pub open spec fn layout_position(nodes: Seq<Node>, rings: Rings, j: int) -> Position {
    let key = region_key(nodes[j]);
    let m = count_in_region(nodes, key);
    let rank = count_in_region(nodes.subrange(0, j + 1), key);
    let c = region_center(nodes, rings, key);
    let q = rings.members@[m as int]@[(rank % m) as int];
    Position { x: (c.0 + q.x) as i64, y: (c.1 + q.y) as i64 }
}

/// `new` is `old` after layout: a non-flow cell named after a node gets that
/// node's position and the square size; every other cell is left as it was.
pub open spec fn laid_out(old: Cell, new: Cell, nodes: Seq<Node>, rings: Rings) -> bool {
    match last_named(nodes, old.data.name@) {
        Some(j) => if old.shape != Shape::Flow {
            new == Cell {
                position: Some(layout_position(nodes, rings, j)),
                size: Some(Size { width: CELL_SIDE, height: CELL_SIDE }),
                ..old
            }
        } else {
            new == old
        },
        None => new == old,
    }
}

/// The region of a node, as a string.
pub(crate) fn region_key_string(n: &Node) -> (r: String)
    ensures
        r@ == region_key(*n),
{
    if n.out_of_scope == Some(true) {
        match &n.trust_boundary {
            Some(b) => b.clone(),
            None => String::from_str("South"),
        }
    } else {
        String::from_str("Center")
    }
}

/// The region of every node, and the distinct regions in order of discovery.
pub(crate) fn plan_regions(nodes: &Vec<Node>) -> (r: (Vec<String>, Vec<String>))
    ensures
        r.0@.len() == nodes@.len(),
        forall|j: int| 0 <= j < nodes@.len() ==> (#[trigger] r.0@[j])@ == region_key(nodes@[j]),
        string_views(r.1@) == region_keys(nodes@),
        r.1@.len() <= nodes@.len(),
{
    let mut node_keys: Vec<String> = Vec::new();
    let mut keys: Vec<String> = Vec::new();
    let mut i: usize = 0;
    while i < nodes.len()
        invariant
            i <= nodes@.len(),
            node_keys@.len() == i,
            forall|j: int| 0 <= j < i ==> (#[trigger] node_keys@[j])@ == region_key(nodes@[j]),
            string_views(keys@) == region_keys(nodes@.subrange(0, i as int)),
            keys@.len() <= i,
        decreases nodes@.len() - i,
    {
        proof {
            assert(nodes@.subrange(0, i + 1).drop_last() == nodes@.subrange(0, i as int));
            assert(nodes@.subrange(0, i + 1).last() == nodes@[i as int]);
        }
        let key = region_key_string(&nodes[i]);
        let seen = contains_name(&keys, &key);
        proof {
            assert(seen == string_views(keys@).contains(key@)) by {
                if seen {
                    let j = choose|j: int| 0 <= j < keys@.len() && keys@[j]@ == key@;
                    assert(string_views(keys@)[j] == key@);
                }
                if string_views(keys@).contains(key@) {
                    let j = choose|j: int| 0 <= j < string_views(keys@).len() && string_views(keys@)[j] == key@;
                    assert(keys@[j]@ == key@);
                }
            }
        }
        if !seen {
            keys.push(key.clone());
            proof {
                assert(string_views(keys@) == string_views(keys@.drop_last()).push(key@));
            }
        }
        node_keys.push(key);
        i = i + 1;
    }
    proof {
        assert(nodes@.subrange(0, nodes@.len() as int) == nodes@);
    }
    (node_keys, keys)
}

/// Index of the last node named `name`.
pub(crate) fn find_last_named(nodes: &Vec<Node>, name: &String) -> (r: Option<usize>)
    ensures
        match r {
            Some(j) => last_named(nodes@, name@) == Some(j as int) && j < nodes@.len(),
            None => last_named(nodes@, name@) is None,
        },
{
    let mut i: usize = nodes.len();
    proof {
        assert(nodes@.subrange(0, i as int) == nodes@);
    }
    while i > 0
        invariant
            i <= nodes@.len(),
            last_named(nodes@, name@) == last_named(nodes@.subrange(0, i as int), name@),
        decreases i,
    {
        proof {
            assert(nodes@.subrange(0, i as int).drop_last() == nodes@.subrange(0, i - 1));
        }
        if nodes[i - 1].name == *name {
            return Some(i - 1);
        }
        i = i - 1;
    }
    None
}

pub(crate) proof fn lemma_region_key_listed(nodes: Seq<Node>, j: int)
    requires
        0 <= j < nodes.len(),
    ensures
        region_keys(nodes).contains(region_key(nodes[j])),
    decreases nodes.len(),
{
    let prev = region_keys(nodes.drop_last());
    let last = region_key(nodes.last());
    if j < nodes.len() - 1 {
        lemma_region_key_listed(nodes.drop_last(), j);
        assert(nodes.drop_last()[j] == nodes[j]);
        let w = choose|w: int| 0 <= w < prev.len() && prev[w] == region_key(nodes[j]);
        if !prev.contains(last) {
            assert(prev.push(last)[w] == region_key(nodes[j]));
        }
    } else if !prev.contains(last) {
        assert(prev.push(last)[prev.len() as int] == last);
    }
}

/// The position that layout gives node `j`.
pub(crate) fn position_of(
    nodes: &Vec<Node>,
    node_keys: &Vec<String>,
    keys: &Vec<String>,
    j: usize,
    rings: &Rings,
) -> (r: Position)
    requires
        j < nodes@.len(),
        node_keys@.len() == nodes@.len(),
        forall|i: int| 0 <= i < nodes@.len() ==> (#[trigger] node_keys@[i])@ == region_key(nodes@[i]),
        string_views(keys@) == region_keys(nodes@),
        keys@.len() <= nodes@.len(),
        rings.covers(nodes@.len()),
    ensures
        r == layout_position(nodes@, *rings, j as int),
        LAYOUT_CENTER_X - REGION_CIRCLE_RADIUS - MEMBER_CIRCLE_RADIUS <= r.x <= LAYOUT_CENTER_X + REGION_CIRCLE_RADIUS
            + MEMBER_CIRCLE_RADIUS,
        LAYOUT_CENTER_Y - REGION_CIRCLE_RADIUS - MEMBER_CIRCLE_RADIUS <= r.y <= LAYOUT_CENTER_Y + REGION_CIRCLE_RADIUS
            + MEMBER_CIRCLE_RADIUS,
{
    let ghost ns = nodes@;
    let key = &node_keys[j];
    let ghost kv = region_key(ns[j as int]);
    let center = String::from_str("Center");
    // size of the region, and the rank of node `j` within it
    let mut cnt: usize = 0;
    let mut rank: usize = 0;
    let mut t: usize = 0;
    while t < node_keys.len()
        invariant
            t <= ns.len(),
            j < ns.len(),
            node_keys@.len() == ns.len(),
            forall|i: int| 0 <= i < ns.len() ==> (#[trigger] node_keys@[i])@ == region_key(ns[i]),
            key@ == kv,
            kv == region_key(ns[j as int]),
            cnt == count_in_region(ns.subrange(0, t as int), kv),
            cnt <= t,
            t > j ==> rank == count_in_region(ns.subrange(0, j + 1), kv) && 1 <= rank <= cnt,
        decreases ns.len() - t,
    {
        proof {
            assert(ns.subrange(0, t + 1).drop_last() == ns.subrange(0, t as int));
            assert(ns.subrange(0, t + 1).last() == ns[t as int]);
        }
        if node_keys[t] == *key {
            cnt = cnt + 1;
        }
        if t == j {
            rank = cnt;
        }
        t = t + 1;
    }
    proof {
        assert(ns.subrange(0, ns.len() as int) == ns);
    }
    let m = cnt;
    let q = rings.members[m][rank % m];
    let ghost kvs = string_views(keys@);
    let (cx, cy) = if *key == center {
        (LAYOUT_CENTER_X, LAYOUT_CENTER_Y)
    } else {
        proof {
            lemma_region_key_listed(ns, j as int);
        }
        let mut t: usize = 0;
        let mut slot: usize = 0;
        while t < keys.len() && keys[t] != *key
            invariant
                t <= keys@.len(),
                kvs == string_views(keys@),
                kvs.contains(kv),
                key@ == kv,
                forall|u: int| 0 <= u < t ==> kvs[u] != kv,
                slot == non_center_count(kvs.subrange(0, t as int)),
                slot <= t,
                center@ == "Center"@,
            decreases keys@.len() - t,
        {
            proof {
                assert(kvs.subrange(0, t + 1).drop_last() == kvs.subrange(0, t as int));
                assert(kvs.subrange(0, t + 1).last() == kvs[t as int]);
            }
            if keys[t] != center {
                slot = slot + 1;
            }
            t = t + 1;
        }
        proof {
            if t == keys@.len() {
                let w = choose|w: int| 0 <= w < kvs.len() && kvs[w] == kv;
                assert(kvs[w] != kv);
            }
            assert(kvs[t as int] == kv);
            let f = first_index(kvs, kv);
            assert(0 <= f < kvs.len() && kvs[f] == kv && forall|u: int| 0 <= u < f ==> kvs[u] != kv);
            if f < t {
                assert(kvs[f] != kv);
            }
            if f > t {
                assert(kvs[t as int] != kv);
            }
            assert(f == t);
        }
        let p = rings.regions[keys.len()][slot];
        (LAYOUT_CENTER_X + p.x, LAYOUT_CENTER_Y + p.y)
    };
    Position { x: cx + q.x, y: cy + q.y }
}

} // verus!
