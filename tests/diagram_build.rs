use threat_dragon_builder::config::{Asset, Config, Diagrams, TrustBoundary};
use threat_dragon_builder::input::TypeNode as Kind;
use threat_dragon_builder::cell_data::CellData;
use threat_dragon_builder::diagram::{Cell, Diagram, Endpoint, Position, Shape, Size, Stroke};
use threat_dragon_builder::layout::{Rings, MEMBER_CIRCLE_RADIUS, REGION_CIRCLE_RADIUS};
use threat_dragon_builder::mapping::map_nodes;
use threat_dragon_builder::general::{Detail, ThreatModeling};
use threat_dragon_builder::process::{MappingFromInputDiagram, MappingFromVecInputDiagram};
use threat_dragon_builder::config::ConfigYaml;
use threat_dragon_builder::input::{InputDiagram, Node, TypeNode};
use threat_dragon_builder::threat::{Severity, Status, Threat, TypeThreat};

fn process(name: &str) -> Node {
    Node {
        name: name.to_string(),
        type_node: TypeNode::Process,
        description: format!("{} component", name),
        out_of_scope: None,
        trust_boundary: None,
        trust_level: None,
        asset: None,
        source: None,
        destination: None,
        threats: Vec::new(),
    }
}

fn flow(name: &str, from: &str, to: &str) -> Node {
    Node {
        name: name.to_string(),
        type_node: TypeNode::Flow,
        description: format!("{} link", name),
        out_of_scope: None,
        trust_boundary: None,
        trust_level: None,
        asset: None,
        source: Some(from.to_string()),
        destination: Some(to.to_string()),
        threats: Vec::new(),
    }
}

fn catalog_entry(title: &str, severity: Severity) -> Threat {
    Threat {
        title: title.to_string(),
        status: Status::Open,
        severity,
        type_field: TypeThreat::Tampering,
        description: format!("{} threat", title),
        mitigation: "validate input".to_string(),
        vector: Some("network".to_string()),
    }
}

fn config_with(decls: Vec<Diagrams>) -> Config {
    Config {
        threat_dragon_version: "2.2.0".to_string(),
        title: "Model".to_string(),
        owner: "Team".to_string(),
        description: "A model".to_string(),
        trust_boundaries: vec![TrustBoundary {
            name: "DMZ".to_string(),
            description: "edge".to_string(),
            limit_of_access: "public".to_string(),
            level_of_authorization: "none".to_string(),
        }],
        diagrams: decls,
        assets: vec![Asset { name: "tokens".to_string(), description: "session tokens".to_string() }],
    }
}

fn ring_rows(radius: i64, n: usize) -> Vec<Vec<Position>> {
    let mut rows = Vec::new();
    for count in 0..=n {
        let mut row = Vec::new();
        for k in 0..count {
            let angle = 2.0 * std::f64::consts::PI * (k as f64) / (count as f64);
            row.push(Position {
                x: ((radius as f64) * angle.cos()).round() as i64,
                y: ((radius as f64) * angle.sin()).round() as i64,
            });
        }
        rows.push(row);
    }
    rows
}

fn rings_for(n: usize) -> Rings {
    Rings { regions: ring_rows(REGION_CIRCLE_RADIUS, n), members: ring_rows(MEMBER_CIRCLE_RADIUS, n) }
}


fn diagram_of(nodes: Vec<Node>) -> InputDiagram {
    InputDiagram { title: "D".to_string(), description: "d".to_string(), nodes }
}

fn cell_named<'a>(cells: &'a [Cell], name: &str) -> &'a Cell {
    cells.iter().rev().find(|c| c.data.name == name).unwrap()
}

#[test]
fn flow_endpoints_point_at_sibling_cells() {
    let input = diagram_of(vec![process("A"), process("B"), flow("F1", "A", "B")]);
    let config = config_with(vec![]);
    let mut cells = map_nodes(&input.nodes, &config, &vec![]);
    Diagram::update_source_and_destination(&mut cells, &input);
    let a_id = cells[0].id.clone();
    let b_id = cells[1].id.clone();
    let f = &cells[2];
    assert_eq!(f.source.as_ref().unwrap().cell, a_id);
    assert_eq!(f.target.as_ref().unwrap().cell, b_id);
    assert_eq!(f.labels.as_ref().unwrap(), &vec!["F1".to_string()]);
    assert!(cells[0].source.is_none() && cells[0].labels.is_none());
}

#[test]
fn dangling_destination_leaves_target_unset() {
    let input = diagram_of(vec![process("A"), flow("F1", "A", "Nowhere")]);
    let config = config_with(vec![]);
    let rings = rings_for(2);
    let d = Diagram::from_input_diagram(0, &input, &config, &vec![], &rings);
    let f = cell_named(&d.cells, "F1");
    assert_eq!(f.source.as_ref().unwrap().cell, d.cells[0].id);
    assert!(f.target.is_none());
    assert_eq!(d.cells.len(), 2);
}

#[test]
fn endpoint_match_is_case_sensitive() {
    let input = diagram_of(vec![process("A"), flow("F1", "a", "A")]);
    let config = config_with(vec![]);
    let mut cells = map_nodes(&input.nodes, &config, &vec![]);
    Diagram::update_source_and_destination(&mut cells, &input);
    assert!(cells[1].source.is_none());
    assert_eq!(cells[1].target.as_ref().unwrap().cell, cells[0].id);
}

#[test]
fn later_catalog_entry_wins() {
    let mut node = process("A");
    node.threats = vec!["T".to_string()];
    let input = diagram_of(vec![node]);
    let catalog = vec![catalog_entry("T", Severity::Low), catalog_entry("T", Severity::High)];
    let cells = map_nodes(&input.nodes, &config_with(vec![]), &catalog);
    assert_eq!(cells[0].data.threats.len(), 1);
    assert_eq!(cells[0].data.threats[0].severity, "High");
    assert_eq!(cells[0].data.threats[0].status, "Open");
    assert_eq!(cells[0].data.threats[0].type_field, "Tampering");
    assert_eq!(cells[0].data.threats[0].model_type, "STRIDE");
    assert_eq!(cells[0].data.threats[0].number, 1);
    assert!(!cells[0].data.threats[0].new);
    assert_eq!(cells[0].data.threats[0].score, "");
}

#[test]
fn unknown_threat_title_is_dropped() {
    let mut node = process("A");
    node.threats = vec!["Missing".to_string()];
    let input = diagram_of(vec![node]);
    let catalog = vec![catalog_entry("T", Severity::Low)];
    let cells = map_nodes(&input.nodes, &config_with(vec![]), &catalog);
    assert!(cells[0].data.threats.is_empty());
    let body = cells[0].attrs.as_ref().unwrap().body.unwrap();
    assert_eq!(body.stroke, Stroke::Neutral);
    assert_eq!(body.stroke.color(), "#333333");
    assert_eq!(body.stroke.width_tenths(), 30);
}

#[test]
fn threatened_out_of_scope_process_style() {
    let mut node = process("A");
    node.threats = vec!["T".to_string()];
    node.out_of_scope = Some(true);
    let mut link = flow("F", "A", "A");
    link.threats = vec!["T".to_string()];
    link.out_of_scope = Some(true);
    let input = diagram_of(vec![node, link]);
    let catalog = vec![catalog_entry("T", Severity::Medium)];
    let cells = map_nodes(&input.nodes, &config_with(vec![]), &catalog);
    let attrs = cells[0].attrs.as_ref().unwrap();
    let body = attrs.body.unwrap();
    assert_eq!(body.stroke, Stroke::Warning);
    assert_eq!(body.stroke.color(), "red");
    assert_eq!(body.stroke.width_tenths(), 15);
    assert!(body.dashed);
    assert_eq!(attrs.text.as_ref().unwrap().text, "A");
    assert!(attrs.line.is_none());
    let flow_attrs = cells[1].attrs.as_ref().unwrap();
    assert_eq!(flow_attrs.line.unwrap().stroke, Stroke::Warning);
    assert!(flow_attrs.body.is_none() && flow_attrs.text.is_none());
    assert_eq!(cells[0].shape, Shape::Process);
    assert_eq!(cells[1].shape, Shape::Flow);
    assert_eq!(cells[0].data.type_field, "tm.Process");
    assert_eq!(cells[1].data.type_field, "tm.Flow");
    assert_eq!(cells[0].data.reason_out_of_scope.as_deref(), Some(""));
    assert_eq!(cells[0].z_index, 1);
}

#[test]
fn mapping_twice_differs_only_in_ids() {
    let mut node = process("A");
    node.threats = vec!["T".to_string()];
    let input = diagram_of(vec![node, flow("F", "A", "A")]);
    let catalog = vec![catalog_entry("T", Severity::Low)];
    let config = config_with(vec![]);
    let first = map_nodes(&input.nodes, &config, &catalog);
    let second = map_nodes(&input.nodes, &config, &catalog);
    for (a, b) in first.iter().zip(second.iter()) {
        assert_eq!(format!("{:?}", a.attrs), format!("{:?}", b.attrs));
        assert_eq!(a.shape, b.shape);
        assert_eq!(a.data.name, b.data.name);
        assert_eq!(a.data.threats.len(), b.data.threats.len());
        assert_ne!(a.id, b.id);
        assert_eq!(a.id.len(), 36);
    }
    assert_ne!(first[0].data.threats[0].id, second[0].data.threats[0].id);
    assert_eq!(first[0].data.threats[0].title, second[0].data.threats[0].title);
}

#[test]
fn single_center_node_position() {
    let input = diagram_of(vec![process("A")]);
    let rings = rings_for(1);
    let mut cells = map_nodes(&input.nodes, &config_with(vec![]), &vec![]);
    Diagram::update_cells_position(&mut cells, &input, &rings);
    assert_eq!(cells[0].position, Some(Position { x: 620, y: 500 }));
    assert_eq!(cells[0].size, Some(Size { width: 140, height: 140 }));
}

#[test]
fn regions_on_the_outer_circle() {
    let mut dmz = process("Gateway");
    dmz.out_of_scope = Some(true);
    dmz.trust_boundary = Some("DMZ".to_string());
    let mut ext = process("User");
    ext.out_of_scope = Some(true);
    let input = diagram_of(vec![process("App"), dmz, ext, flow("F", "User", "App")]);
    let rings = rings_for(4);
    let mut cells = map_nodes(&input.nodes, &config_with(vec![]), &vec![]);
    Diagram::update_cells_position(&mut cells, &input, &rings);
    // the flow shares the center region with "App", so "App" is the first of two
    assert_eq!(cells[0].position, Some(Position { x: 380, y: 500 }));
    assert_eq!(cells[1].position, Some(Position { x: 1070, y: 500 }));
    assert_eq!(cells[2].position, Some(Position { x: 395, y: 890 }));
    assert!(cells[3].position.is_none() && cells[3].size.is_none());
}

#[test]
fn members_of_one_region_spread_by_rank() {
    let input = diagram_of(vec![process("A"), process("B")]);
    let rings = rings_for(2);
    let mut cells = map_nodes(&input.nodes, &config_with(vec![]), &vec![]);
    Diagram::update_cells_position(&mut cells, &input, &rings);
    assert_eq!(cells[0].position, Some(Position { x: 380, y: 500 }));
    assert_eq!(cells[1].position, Some(Position { x: 620, y: 500 }));
}

#[test]
fn layout_repeats_exactly() {
    let mut b = process("B");
    b.out_of_scope = Some(true);
    b.trust_boundary = Some("Z".to_string());
    let input = diagram_of(vec![process("A"), b, process("C"), flow("F", "A", "B")]);
    let rings = rings_for(4);
    let config = config_with(vec![]);
    let mut first = map_nodes(&input.nodes, &config, &vec![]);
    let mut second = map_nodes(&input.nodes, &config, &vec![]);
    Diagram::update_cells_position(&mut first, &input, &rings);
    Diagram::update_cells_position(&mut second, &input, &rings);
    for (x, y) in first.iter().zip(second.iter()) {
        assert_eq!(x.position, y.position);
        assert_eq!(x.size, y.size);
    }
}

fn placed(name: &str, x: i64, y: i64) -> Cell {
    Cell {
        position: Some(Position { x, y }),
        size: Some(Size { width: 140, height: 140 }),
        attrs: None,
        shape: Shape::Process,
        id: format!("id-{}", name),
        z_index: 1,
        data: CellData {
            type_field: "tm.Process".to_string(),
            name: name.to_string(),
            description: String::new(),
            out_of_scope: None,
            reason_out_of_scope: None,
            has_open_threats: false,
            threats: Vec::new(),
        },
        source: None,
        target: None,
        labels: None,
    }
}

#[test]
fn boundary_box_covers_members() {
    let mut nodes = Vec::new();
    for n in ["A", "B", "C"] {
        let mut p = process(n);
        p.trust_boundary = Some("TB".to_string());
        nodes.push(p);
    }
    nodes.push(process("Outside"));
    let input = diagram_of(nodes);
    let mut cells = vec![placed("A", 0, 0), placed("B", 100, 0), placed("C", 0, 100), placed("Outside", 900, 900)];
    Diagram::add_trust_boundaries(&mut cells, &input);
    assert_eq!(cells.len(), 5);
    let bx = &cells[4];
    assert_eq!(bx.position, Some(Position { x: -40, y: -40 }));
    assert_eq!(bx.size, Some(Size { width: 100 + 140 + 80, height: 100 + 140 + 80 }));
    assert_eq!(bx.shape, Shape::TrustBoundaryBox);
    assert_eq!(bx.shape.to_string(), "trust-boundary-box");
    assert_eq!(bx.data.name, "TB");
    assert_eq!(bx.data.type_field, "tm.BoundaryBox");
    assert_eq!(bx.attrs.as_ref().unwrap().header_text.as_ref().unwrap().text, "TB");
    assert!(bx.data.threats.is_empty());
    assert_eq!(bx.z_index, 0);
    assert_eq!(bx.id.len(), 36);
}

#[test]
fn boundary_without_anchor_cell_gets_no_box() {
    let mut a = process("A");
    a.trust_boundary = Some("TB".to_string());
    let mut b = process("B");
    b.trust_boundary = Some("TB".to_string());
    let input = diagram_of(vec![a, b]);
    let mut cells = vec![placed("B", 10, 10)];
    Diagram::add_trust_boundaries(&mut cells, &input);
    assert_eq!(cells.len(), 1);
}

#[test]
fn boundaries_boxed_in_order_of_first_use() {
    let mut a = process("A");
    a.trust_boundary = Some("Second".to_string());
    let mut b = process("B");
    b.trust_boundary = Some("First".to_string());
    let input = diagram_of(vec![a, b]);
    let mut cells = vec![placed("A", 0, 0), placed("B", 500, 500)];
    Diagram::add_trust_boundaries(&mut cells, &input);
    assert_eq!(cells.len(), 4);
    assert_eq!(cells[2].data.name, "Second");
    assert_eq!(cells[3].data.name, "First");
    assert_eq!(cells[3].position, Some(Position { x: 460, y: 460 }));
    assert_eq!(cells[3].size, Some(Size { width: 220, height: 220 }));
}

#[test]
fn full_diagram_build() {
    let mut gw = process("Gateway");
    gw.out_of_scope = Some(true);
    gw.trust_boundary = Some("DMZ".to_string());
    let input = InputDiagram {
        title: "Main".to_string(),
        description: "main view".to_string(),
        nodes: vec![process("App"), gw, flow("F", "Gateway", "App")],
    };
    let config = config_with(vec![]);
    let rings = rings_for(3);
    let d = Diagram::from_input_diagram(7, &input, &config, &vec![], &rings);
    assert_eq!(d.id, 7);
    assert_eq!(d.title, "Main");
    assert_eq!(d.placeholder, "main view");
    assert_eq!(d.diagram_type, "STRIDE");
    assert_eq!(d.version, "2.2.0");
    assert_eq!(d.thumbnail, "./public/content/images/thumbnail.stride.jpg");
    assert_eq!(d.cells.len(), 4);
    assert_eq!(d.cells[1].position, Some(Position { x: 1070, y: 500 }));
    let bx = &d.cells[3];
    assert_eq!(bx.data.name, "DMZ");
    assert_eq!(bx.position, Some(Position { x: 1030, y: 460 }));
    assert_eq!(bx.size, Some(Size { width: 220, height: 220 }));
    let f = &d.cells[2];
    assert_eq!(f.source.as_ref().unwrap().cell, d.cells[1].id);
    assert_eq!(f.target.as_ref().unwrap().cell, d.cells[0].id);
}

#[test]
fn diagrams_keyed_and_sorted_by_title() {
    let mk = |t: &str, n: &str| InputDiagram { title: t.to_string(), description: String::new(), nodes: vec![process(n)] };
    let inputs = vec![mk("beta", "X"), mk("alpha", "Y"), mk("beta", "Z")];
    let config = config_with(vec![]);
    let rings = rings_for(1);
    let detail = Detail::from_input_diagram(&inputs, &config, &vec![], &rings);
    let titles: Vec<&str> = detail.diagrams.iter().map(|d| d.title.as_str()).collect();
    assert_eq!(titles, vec!["alpha", "beta"]);
    assert_eq!(detail.diagrams[1].id, 2);
    assert_eq!(detail.diagrams[1].cells[0].data.name, "Z");
    assert_eq!(detail.diagrams[0].id, 1);
    assert!(detail.contributors.is_empty());
    assert_eq!(detail.reviewer, "");
}

#[test]
fn threat_model_from_config() {
    let config = config_with(vec![]);
    let rings = rings_for(1);
    let mut model = ThreatModeling::new(&vec![], &config, &vec![], &rings);
    assert_eq!(model.version, "2.2.0");
    assert_eq!(model.summary.title, "Model");
    assert_eq!(model.summary.owner, "Team");
    assert_eq!(model.summary.id, 0);
    assert!(model.detail.diagrams.is_empty());
    let mut newer = config_with(vec![]);
    newer.threat_dragon_version = "2.3.0".to_string();
    assert!(model.from_config(&newer).is_ok());
    assert_eq!(model.version, "2.3.0");
}

#[test]
fn endpoint_struct_holds_cell_id() {
    let e = Endpoint { cell: "x".to_string() };
    assert_eq!(e.cell, "x");
    assert_eq!(Kind::Flow.to_string(), "flow");
    assert_eq!(Kind::Process.to_string(), "process");
}
