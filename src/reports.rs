//! The rows of the report tables: software components, entry points,
//! trust boundaries, assets, threats and attack vectors.

use vstd::prelude::*;
use crate::cell_data::{find_last_threat, resolved_entries};
use crate::config::{Asset, Config, TrustBoundary};
use crate::boundary::{boundary_names, collect_boundary_names};
use crate::input::{contains_name, string_views, InputDiagram, Node, TypeNode};
use crate::layout::{find_last_named, last_named};
use crate::threat::Threat;

verus! {

/// Failures of writing a report workbook.
#[derive(Debug, Clone)]
pub enum ExcelError {
    SetColumnWidth(String),
    SetName(String),
    Write(String),
    WriteWithFormat(String),
    ExcelDateTime(String),
    MergeRange(String),
    NewImage(String),
    InsertImage(String),
    Save(String),
}

/// A table of strings, as character sequences.
pub open spec fn rows_view(rows: Seq<Vec<String>>) -> Seq<Seq<Seq<char>>> {
    rows.map_values(|r: Vec<String>| string_views(r@))
}

pub open spec fn text_or(o: Option<String>, default: Seq<char>) -> Seq<char> {
    match o {
        Some(s) => s@,
        None => default,
    }
}

fn string_or(o: &Option<String>, default: &str) -> (r: String)
    ensures
        r@ == text_or(*o, default@),
{
    match o {
        Some(s) => s.clone(),
        None => String::from_str(default),
    }
}

fn string_or_empty(o: &Option<String>) -> (r: String)
    ensures
        r@ == text_or(*o, Seq::empty()),
{
    match o {
        Some(s) => s.clone(),
        None => String::new(),
    }
}

/// The node lies outside the scope of the model.
pub open spec fn out_of_scope_label(o: Option<bool>) -> Seq<char> {
    match o {
        Some(true) => "Yes"@,
        Some(false) => "No"@,
        None => Seq::empty(),
    }
}

pub open spec fn process_pred() -> spec_fn(Node) -> bool {
    |n: Node| n.type_node == TypeNode::Process
}

pub open spec fn flow_kind_pred() -> spec_fn(Node) -> bool {
    |n: Node| n.type_node == TypeNode::Flow
}

/// Row of a software component: name, description, trust level, scope.
pub open spec fn software_row(n: Node) -> Seq<Seq<char>> {
    seq![n.name@, n.description@, text_or(n.trust_level, Seq::empty()), out_of_scope_label(n.out_of_scope)]
}

/// One row per process, in order.
pub fn software_rows(input_diagram: &InputDiagram) -> (r: Vec<Vec<String>>)
    ensures
        rows_view(r@) == input_diagram.nodes@.filter(process_pred()).map_values(|n: Node| software_row(n)),
{
    let nodes = &input_diagram.nodes;
    let ghost pred = process_pred();
    let mut rows: Vec<Vec<String>> = Vec::new();
    let mut i: usize = 0;
    while i < nodes.len()
        invariant
            i <= nodes@.len(),
            pred == process_pred(),
            rows_view(rows@) == nodes@.subrange(0, i as int).filter(pred).map_values(|n: Node| software_row(n)),
        decreases nodes@.len() - i,
    {
        let n = &nodes[i];
        let ghost before = nodes@.subrange(0, i as int).filter(pred);
        proof {
            reveal(Seq::filter);
            assert(nodes@.subrange(0, i + 1).drop_last() == nodes@.subrange(0, i as int));
            assert(nodes@.subrange(0, i + 1).last() == *n);
        }
        if n.type_node == TypeNode::Process {
            let scope = match n.out_of_scope {
                Some(true) => String::from_str("Yes"),
                Some(false) => String::from_str("No"),
                None => String::new(),
            };
            let row = vec![n.name.clone(), n.description.clone(), string_or_empty(&n.trust_level), scope];
            proof {
                assert(string_views(row@) =~= software_row(*n));
            }
            let ghost prev = rows@;
            rows.push(row);
            proof {
                assert(nodes@.subrange(0, i + 1).filter(pred) == before.push(*n));
                assert(rows_view(rows@) =~= rows_view(prev).push(software_row(*n)));
                assert(before.push(*n).map_values(|n: Node| software_row(n)) =~= before.map_values(
                    |n: Node| software_row(n),
                ).push(software_row(*n)));
            }
        } else {
            proof {
                assert(nodes@.subrange(0, i + 1).filter(pred) == before);
            }
        }
        i = i + 1;
    }
    proof {
        assert(nodes@.subrange(0, nodes@.len() as int) == nodes@);
    }
    rows
}

/// The node is in scope: not flagged out of scope.
pub open spec fn in_scope(n: Node) -> bool {
    n.out_of_scope != Some(true)
}

/// The last node with the given name, if the name is given and present.
pub open spec fn node_named(nodes: Seq<Node>, name: Option<String>) -> Option<Node> {
    match name {
        Some(s) => match last_named(nodes, s@) {
            Some(i) => Some(nodes[i]),
            None => None,
        },
        None => None,
    }
}

/// Row of an entry point: a flow leaving an in-scope source is an exit of
/// that source; else one reaching an in-scope destination is an entry to it.
pub open spec fn entry_row(nodes: Seq<Node>, f: Node) -> Seq<Seq<char>> {
    let src = node_named(nodes, f.source);
    let dst = node_named(nodes, f.destination);
    let (service, direction) = if src matches Some(s) && in_scope(s) {
        (src->0.name@, "Exit"@)
    } else if dst matches Some(d) && in_scope(d) {
        (dst->0.name@, "Entry"@)
    } else {
        ("Unknown"@, Seq::<char>::empty())
    };
    seq![f.name@, direction, f.description@, text_or(f.asset, Seq::empty()), text_or(f.trust_level, "Unknown"@), service]
}

/// The node of the given name, if the name is given and present.
fn lookup_node<'a>(nodes: &'a Vec<Node>, name: &Option<String>) -> (r: Option<&'a Node>)
    ensures
        match r {
            Some(n) => node_named(nodes@, *name) == Some(*n),
            None => node_named(nodes@, *name) is None,
        },
{
    match name {
        Some(s) => match find_last_named(nodes, s) {
            Some(i) => Some(&nodes[i]),
            None => None,
        },
        None => None,
    }
}

fn entry_row_exec(nodes: &Vec<Node>, f: &Node) -> (r: Vec<String>)
    ensures
        string_views(r@) == entry_row(nodes@, *f),
{
    let src = lookup_node(nodes, &f.source);
    let dst = lookup_node(nodes, &f.destination);
    let src_in = match src {
        Some(s) => s.out_of_scope != Some(true),
        None => false,
    };
    let dst_in = match dst {
        Some(d) => d.out_of_scope != Some(true),
        None => false,
    };
    let (service, direction) = if src_in {
        (src.unwrap().name.clone(), String::from_str("Exit"))
    } else if dst_in {
        (dst.unwrap().name.clone(), String::from_str("Entry"))
    } else {
        (String::from_str("Unknown"), String::new())
    };
    let row = vec![
        f.name.clone(),
        direction,
        f.description.clone(),
        string_or_empty(&f.asset),
        string_or(&f.trust_level, "Unknown"),
        service,
    ];
    proof {
        assert(string_views(row@) =~= entry_row(nodes@, *f));
    }
    row
}

/// One row per flow, in order.
pub fn entry_point_rows(input_diagram: &InputDiagram) -> (r: Vec<Vec<String>>)
    ensures
        rows_view(r@) == input_diagram.nodes@.filter(flow_kind_pred()).map_values(
            |n: Node| entry_row(input_diagram.nodes@, n),
        ),
{
    let nodes = &input_diagram.nodes;
    let ghost pred = flow_kind_pred();
    let ghost all = nodes@;
    let mut rows: Vec<Vec<String>> = Vec::new();
    let mut i: usize = 0;
    while i < nodes.len()
        invariant
            i <= nodes@.len(),
            all == nodes@,
            pred == flow_kind_pred(),
            rows_view(rows@) == nodes@.subrange(0, i as int).filter(pred).map_values(|n: Node| entry_row(all, n)),
        decreases nodes@.len() - i,
    {
        let n = &nodes[i];
        let ghost before = nodes@.subrange(0, i as int).filter(pred);
        proof {
            reveal(Seq::filter);
            assert(nodes@.subrange(0, i + 1).drop_last() == nodes@.subrange(0, i as int));
            assert(nodes@.subrange(0, i + 1).last() == *n);
        }
        if n.type_node == TypeNode::Flow {
            let row = entry_row_exec(nodes, n);
            let ghost prev = rows@;
            rows.push(row);
            proof {
                assert(nodes@.subrange(0, i + 1).filter(pred) == before.push(*n));
                assert(rows_view(rows@) =~= rows_view(prev).push(entry_row(all, *n)));
                assert(before.push(*n).map_values(|n: Node| entry_row(all, n)) =~= before.map_values(
                    |n: Node| entry_row(all, n),
                ).push(entry_row(all, *n)));
            }
        } else {
            proof {
                assert(nodes@.subrange(0, i + 1).filter(pred) == before);
            }
        }
        i = i + 1;
    }
    proof {
        assert(nodes@.subrange(0, nodes@.len() as int) == nodes@);
    }
    rows
}

/// Row of a threat on a node: node, node kind, STRIDE class, description,
/// vector, status, mitigation.
pub open spec fn threat_row(n: Node, t: Threat) -> Seq<Seq<char>> {
    seq![
        n.name@,
        n.type_node.label(),
        t.type_field.label(),
        t.description@,
        text_or(t.vector, Seq::empty()),
        t.status.label(),
        t.mitigation@,
    ]
}

/// One row per resolved threat of each node, nodes in order.
pub open spec fn threat_rows(nodes: Seq<Node>, catalog: Seq<Threat>) -> Seq<Seq<Seq<char>>>
    decreases nodes.len(),
{
    if nodes.len() == 0 {
        Seq::empty()
    } else {
        let n = nodes.last();
        threat_rows(nodes.drop_last(), catalog) + resolved_entries(catalog, n.threats@).map_values(
            |t: Threat| threat_row(n, t),
        )
    }
}

fn threat_row_exec(n: &Node, t: &Threat) -> (r: Vec<String>)
    ensures
        string_views(r@) == threat_row(*n, *t),
{
    let row = vec![
        n.name.clone(),
        n.type_node.to_string(),
        t.type_field.to_string(),
        t.description.clone(),
        string_or_empty(&t.vector),
        t.status.to_string(),
        t.mitigation.clone(),
    ];
    proof {
        assert(string_views(row@) =~= threat_row(*n, *t));
    }
    row
}

/// The threats table: one row per resolved threat reference.
pub fn threat_table_rows(input_diagram: &InputDiagram, threats: &Vec<Threat>) -> (r: Vec<Vec<String>>)
    ensures
        rows_view(r@) == threat_rows(input_diagram.nodes@, threats@),
{
    let nodes = &input_diagram.nodes;
    let ghost catalog = threats@;
    let mut rows: Vec<Vec<String>> = Vec::new();
    let mut i: usize = 0;
    while i < nodes.len()
        invariant
            i <= nodes@.len(),
            catalog == threats@,
            rows_view(rows@) == threat_rows(nodes@.subrange(0, i as int), catalog),
        decreases nodes@.len() - i,
    {
        let n = &nodes[i];
        let ghost base = rows_view(rows@);
        let mut t: usize = 0;
        while t < n.threats.len()
            invariant
                t <= n.threats@.len(),
                i < nodes@.len(),
                *n == nodes@[i as int],
                catalog == threats@,
                base == threat_rows(nodes@.subrange(0, i as int), catalog),
                rows_view(rows@) == base + resolved_entries(catalog, n.threats@.subrange(0, t as int)).map_values(
                    |e: Threat| threat_row(*n, e),
                ),
            decreases n.threats@.len() - t,
        {
            let ghost titles = n.threats@.subrange(0, t + 1);
            let ghost prev_entries = resolved_entries(catalog, n.threats@.subrange(0, t as int));
            proof {
                assert(titles.drop_last() == n.threats@.subrange(0, t as int));
                assert(titles.last() == n.threats@[t as int]);
            }
            match find_last_threat(threats, &n.threats[t]) {
                Some(e) => {
                    let row = threat_row_exec(n, e);
                    let ghost prev = rows@;
                    rows.push(row);
                    proof {
                        assert(resolved_entries(catalog, titles) == prev_entries.push(*e));
                        assert(prev_entries.push(*e).map_values(|e: Threat| threat_row(*n, e)) =~= prev_entries.map_values(
                            |e: Threat| threat_row(*n, e),
                        ).push(threat_row(*n, *e)));
                        assert(rows_view(rows@) =~= rows_view(prev).push(threat_row(*n, *e)));
                    }
                }
                None => {
                    proof {
                        assert(resolved_entries(catalog, titles) == prev_entries);
                    }
                }
            }
            t = t + 1;
        }
        proof {
            assert(n.threats@.subrange(0, n.threats@.len() as int) == n.threats@);
            assert(nodes@.subrange(0, i + 1).drop_last() == nodes@.subrange(0, i as int));
            assert(nodes@.subrange(0, i + 1).last() == *n);
        }
        i = i + 1;
    }
    proof {
        assert(nodes@.subrange(0, nodes@.len() as int) == nodes@);
    }
    rows
}

/// The last trust-boundary definition with the given name.
pub open spec fn last_boundary_def(defs: Seq<TrustBoundary>, name: Seq<char>) -> Option<TrustBoundary>
    decreases defs.len(),
{
    if defs.len() == 0 {
        None
    } else if defs.last().name@ == name {
        Some(defs.last())
    } else {
        last_boundary_def(defs.drop_last(), name)
    }
}

pub open spec fn boundary_row(d: TrustBoundary) -> Seq<Seq<char>> {
    seq![d.name@, d.description@, d.limit_of_access@, d.level_of_authorization@]
}

/// One row per name that has a definition, in the order of the names.
pub open spec fn boundary_rows_of(names: Seq<Seq<char>>, defs: Seq<TrustBoundary>) -> Seq<Seq<Seq<char>>>
    decreases names.len(),
{
    if names.len() == 0 {
        Seq::empty()
    } else {
        let prev = boundary_rows_of(names.drop_last(), defs);
        match last_boundary_def(defs, names.last()) {
            Some(d) => prev.push(boundary_row(d)),
            None => prev,
        }
    }
}

fn find_boundary_def<'a>(defs: &'a Vec<TrustBoundary>, name: &String) -> (r: Option<&'a TrustBoundary>)
    ensures
        match r {
            Some(d) => last_boundary_def(defs@, name@) == Some(*d),
            None => last_boundary_def(defs@, name@) is None,
        },
{
    let mut i: usize = defs.len();
    proof {
        assert(defs@.subrange(0, i as int) == defs@);
    }
    while i > 0
        invariant
            i <= defs@.len(),
            last_boundary_def(defs@, name@) == last_boundary_def(defs@.subrange(0, i as int), name@),
        decreases i,
    {
        proof {
            assert(defs@.subrange(0, i as int).drop_last() == defs@.subrange(0, i - 1));
        }
        if defs[i - 1].name == *name {
            return Some(&defs[i - 1]);
        }
        i = i - 1;
    }
    None
}

/// The trust-boundary table: one row per boundary that the nodes use and
/// the configuration defines, in order of first use.
pub fn trust_boundary_rows(input_diagram: &InputDiagram, config: &Config) -> (r: Vec<Vec<String>>)
    ensures
        rows_view(r@) == boundary_rows_of(boundary_names(input_diagram.nodes@), config.trust_boundaries@),
{
    let names = collect_boundary_names(&input_diagram.nodes);
    let ghost all = string_views(names@);
    let defs = &config.trust_boundaries;
    let mut rows: Vec<Vec<String>> = Vec::new();
    let mut i: usize = 0;
    while i < names.len()
        invariant
            i <= names@.len(),
            all == string_views(names@),
            rows_view(rows@) == boundary_rows_of(all.subrange(0, i as int), defs@),
        decreases names@.len() - i,
    {
        proof {
            assert(all.subrange(0, i + 1).drop_last() == all.subrange(0, i as int));
            assert(all.subrange(0, i + 1).last() == names@[i as int]@);
        }
        match find_boundary_def(defs, &names[i]) {
            Some(d) => {
                let row = vec![
                    d.name.clone(),
                    d.description.clone(),
                    d.limit_of_access.clone(),
                    d.level_of_authorization.clone(),
                ];
                let ghost prev = rows@;
                rows.push(row);
                proof {
                    assert(string_views(row@) =~= boundary_row(*d));
                    assert(rows_view(rows@) =~= rows_view(prev).push(boundary_row(*d)));
                }
            }
            None => {}
        }
        i = i + 1;
    }
    proof {
        assert(all.subrange(0, all.len() as int) == all);
    }
    rows
}

/// The distinct asset names that flows carry, in order of first use.
pub open spec fn asset_names(nodes: Seq<Node>) -> Seq<Seq<char>>
    decreases nodes.len(),
{
    if nodes.len() == 0 {
        Seq::empty()
    } else {
        let prev = asset_names(nodes.drop_last());
        let n = nodes.last();
        if n.type_node == TypeNode::Flow && n.asset is Some && !prev.contains(n.asset->0@) {
            prev.push(n.asset->0@)
        } else {
            prev
        }
    }
}

/// The last asset definition with the given name.
pub open spec fn last_asset_def(defs: Seq<Asset>, name: Seq<char>) -> Option<Asset>
    decreases defs.len(),
{
    if defs.len() == 0 {
        None
    } else if defs.last().name@ == name {
        Some(defs.last())
    } else {
        last_asset_def(defs.drop_last(), name)
    }
}

/// One row per name that has a definition, in the order of the names.
pub open spec fn asset_rows_of(names: Seq<Seq<char>>, defs: Seq<Asset>) -> Seq<Seq<Seq<char>>>
    decreases names.len(),
{
    if names.len() == 0 {
        Seq::empty()
    } else {
        let prev = asset_rows_of(names.drop_last(), defs);
        match last_asset_def(defs, names.last()) {
            Some(a) => prev.push(seq![a.name@, a.description@]),
            None => prev,
        }
    }
}

fn find_asset_def<'a>(defs: &'a Vec<Asset>, name: &String) -> (r: Option<&'a Asset>)
    ensures
        match r {
            Some(a) => last_asset_def(defs@, name@) == Some(*a),
            None => last_asset_def(defs@, name@) is None,
        },
{
    let mut i: usize = defs.len();
    proof {
        assert(defs@.subrange(0, i as int) == defs@);
    }
    while i > 0
        invariant
            i <= defs@.len(),
            last_asset_def(defs@, name@) == last_asset_def(defs@.subrange(0, i as int), name@),
        decreases i,
    {
        proof {
            assert(defs@.subrange(0, i as int).drop_last() == defs@.subrange(0, i - 1));
        }
        if defs[i - 1].name == *name {
            return Some(&defs[i - 1]);
        }
        i = i - 1;
    }
    None
}

/// Whether `names` holds a string whose characters are those of `name`.
fn seen_before(names: &Vec<String>, name: &String) -> (r: bool)
    ensures
        r == string_views(names@).contains(name@),
{
    let r = contains_name(names, name);
    proof {
        if r {
            let j = choose|j: int| 0 <= j < names@.len() && names@[j]@ == name@;
            assert(string_views(names@)[j] == name@);
        }
        if string_views(names@).contains(name@) {
            let j = choose|j: int| 0 <= j < string_views(names@).len() && string_views(names@)[j] == name@;
            assert(names@[j]@ == name@);
        }
    }
    r
}

/// The assets table: one row per asset that flows carry and the
/// configuration defines, in order of first use.
pub fn asset_rows(input_diagram: &InputDiagram, config: &Config) -> (r: Vec<Vec<String>>)
    ensures
        rows_view(r@) == asset_rows_of(asset_names(input_diagram.nodes@), config.assets@),
{
    let nodes = &input_diagram.nodes;
    let mut names: Vec<String> = Vec::new();
    let mut i: usize = 0;
    while i < nodes.len()
        invariant
            i <= nodes@.len(),
            string_views(names@) == asset_names(nodes@.subrange(0, i as int)),
        decreases nodes@.len() - i,
    {
        proof {
            assert(nodes@.subrange(0, i + 1).drop_last() == nodes@.subrange(0, i as int));
            assert(nodes@.subrange(0, i + 1).last() == nodes@[i as int]);
        }
        if nodes[i].type_node == TypeNode::Flow {
            match &nodes[i].asset {
                Some(a) => {
                    if !seen_before(&names, a) {
                        names.push(a.clone());
                        proof {
                            assert(string_views(names@) =~= string_views(names@.drop_last()).push(a@));
                        }
                    }
                }
                None => {}
            }
        }
        i = i + 1;
    }
    proof {
        assert(nodes@.subrange(0, nodes@.len() as int) == nodes@);
    }
    let ghost all = string_views(names@);
    let mut rows: Vec<Vec<String>> = Vec::new();
    let mut k: usize = 0;
    while k < names.len()
        invariant
            k <= names@.len(),
            all == string_views(names@),
            rows_view(rows@) == asset_rows_of(all.subrange(0, k as int), config.assets@),
        decreases names@.len() - k,
    {
        proof {
            assert(all.subrange(0, k + 1).drop_last() == all.subrange(0, k as int));
            assert(all.subrange(0, k + 1).last() == names@[k as int]@);
        }
        match find_asset_def(&config.assets, &names[k]) {
            Some(a) => {
                let row = vec![a.name.clone(), a.description.clone()];
                let ghost prev = rows@;
                rows.push(row);
                proof {
                    assert(string_views(row@) =~= seq![a.name@, a.description@]);
                    assert(rows_view(rows@) =~= rows_view(prev).push(seq![a.name@, a.description@]));
                }
            }
            None => {}
        }
        k = k + 1;
    }
    proof {
        assert(all.subrange(0, all.len() as int) == all);
    }
    rows
}

/// The catalog entries that the nodes' threat references resolve to, nodes
/// in order.
pub open spec fn all_resolved(nodes: Seq<Node>, catalog: Seq<Threat>) -> Seq<Threat>
    decreases nodes.len(),
{
    if nodes.len() == 0 {
        Seq::empty()
    } else {
        all_resolved(nodes.drop_last(), catalog) + resolved_entries(catalog, nodes.last().threats@)
    }
}

/// The distinct attack vectors of `entries`, in order of first use.
pub open spec fn distinct_vectors(entries: Seq<Threat>) -> Seq<Seq<char>>
    decreases entries.len(),
{
    if entries.len() == 0 {
        Seq::empty()
    } else {
        let prev = distinct_vectors(entries.drop_last());
        match entries.last().vector {
            Some(v) => if prev.contains(v@) { prev } else { prev.push(v@) },
            None => prev,
        }
    }
}

/// The vectors table: one single-cell row per distinct attack vector of the
/// resolved threats, in order of first use.
pub fn vector_rows(input_diagram: &InputDiagram, threats: &Vec<Threat>) -> (r: Vec<Vec<String>>)
    ensures
        rows_view(r@) == distinct_vectors(all_resolved(input_diagram.nodes@, threats@)).map_values(|v: Seq<char>| seq![v]),
{
    let nodes = &input_diagram.nodes;
    let ghost catalog = threats@;
    let mut vectors: Vec<String> = Vec::new();
    let mut i: usize = 0;
    while i < nodes.len()
        invariant
            i <= nodes@.len(),
            catalog == threats@,
            string_views(vectors@) == distinct_vectors(all_resolved(nodes@.subrange(0, i as int), catalog)),
        decreases nodes@.len() - i,
    {
        let n = &nodes[i];
        let ghost base = all_resolved(nodes@.subrange(0, i as int), catalog);
        let mut t: usize = 0;
        proof {
            assert(base + resolved_entries(catalog, n.threats@.subrange(0, 0)) =~= base);
        }
        while t < n.threats.len()
            invariant
                t <= n.threats@.len(),
                i < nodes@.len(),
                *n == nodes@[i as int],
                catalog == threats@,
                base == all_resolved(nodes@.subrange(0, i as int), catalog),
                string_views(vectors@) == distinct_vectors(base + resolved_entries(catalog, n.threats@.subrange(0, t as int))),
            decreases n.threats@.len() - t,
        {
            let ghost titles = n.threats@.subrange(0, t + 1);
            let ghost prev_entries = resolved_entries(catalog, n.threats@.subrange(0, t as int));
            proof {
                assert(titles.drop_last() == n.threats@.subrange(0, t as int));
                assert(titles.last() == n.threats@[t as int]);
            }
            match find_last_threat(threats, &n.threats[t]) {
                Some(e) => {
                    proof {
                        assert(resolved_entries(catalog, titles) == prev_entries.push(*e));
                        assert(base + prev_entries.push(*e) == (base + prev_entries).push(*e));
                        assert((base + prev_entries).push(*e).drop_last() == base + prev_entries);
                    }
                    match &e.vector {
                        Some(v) => {
                            if !seen_before(&vectors, v) {
                                vectors.push(v.clone());
                                proof {
                                    assert(string_views(vectors@) =~= string_views(vectors@.drop_last()).push(v@));
                                }
                            }
                        }
                        None => {}
                    }
                }
                None => {
                    proof {
                        assert(resolved_entries(catalog, titles) == prev_entries);
                    }
                }
            }
            t = t + 1;
        }
        proof {
            assert(n.threats@.subrange(0, n.threats@.len() as int) == n.threats@);
            assert(nodes@.subrange(0, i + 1).drop_last() == nodes@.subrange(0, i as int));
            assert(nodes@.subrange(0, i + 1).last() == *n);
        }
        i = i + 1;
    }
    proof {
        assert(nodes@.subrange(0, nodes@.len() as int) == nodes@);
    }
    let ghost vs = string_views(vectors@);
    let mut rows: Vec<Vec<String>> = Vec::new();
    let mut k: usize = 0;
    while k < vectors.len()
        invariant
            k <= vectors@.len(),
            vs == string_views(vectors@),
            rows_view(rows@) == vs.subrange(0, k as int).map_values(|v: Seq<char>| seq![v]),
        decreases vectors@.len() - k,
    {
        let row = vec![vectors[k].clone()];
        let ghost prev = rows@;
        rows.push(row);
        proof {
            assert(string_views(row@) =~= seq![vs[k as int]]);
            assert(rows_view(rows@) =~= rows_view(prev).push(seq![vs[k as int]]));
            assert(vs.subrange(0, k + 1).map_values(|v: Seq<char>| seq![v]) =~= vs.subrange(0, k as int).map_values(
                |v: Seq<char>| seq![v],
            ).push(seq![vs[k as int]]));
        }
        k = k + 1;
    }
    proof {
        assert(vs.subrange(0, vs.len() as int) == vs);
    }
    rows
}

} // verus!
