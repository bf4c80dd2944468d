use threat_dragon_builder::config::{Asset, Config, Diagrams, TrustBoundary};
use threat_dragon_builder::diagram::Position;
use threat_dragon_builder::layout::{Rings, MEMBER_CIRCLE_RADIUS, REGION_CIRCLE_RADIUS};
use threat_dragon_builder::input::{expand_with_children, InputDiagram, Node, TypeNode};
use threat_dragon_builder::threat::{Severity, Status, Threat, TypeThreat};

fn process(name: &str) -> Node {
    Node {
        name: name.to_string(),
        type_node: TypeNode::Process,
        description: format!("{} component", name),
        out_of_scope: None,
        trust_boundary: None,
        trust_level: None,
        asset: None,
        source: None,
        destination: None,
        threats: Vec::new(),
    }
}

fn flow(name: &str, from: &str, to: &str) -> Node {
    Node {
        name: name.to_string(),
        type_node: TypeNode::Flow,
        description: format!("{} link", name),
        out_of_scope: None,
        trust_boundary: None,
        trust_level: None,
        asset: None,
        source: Some(from.to_string()),
        destination: Some(to.to_string()),
        threats: Vec::new(),
    }
}

fn catalog_entry(title: &str, severity: Severity) -> Threat {
    Threat {
        title: title.to_string(),
        status: Status::Open,
        severity,
        type_field: TypeThreat::Tampering,
        description: format!("{} threat", title),
        mitigation: "validate input".to_string(),
        vector: Some("network".to_string()),
    }
}

fn config_with(decls: Vec<Diagrams>) -> Config {
    Config {
        threat_dragon_version: "2.2.0".to_string(),
        title: "Model".to_string(),
        owner: "Team".to_string(),
        description: "A model".to_string(),
        trust_boundaries: vec![TrustBoundary {
            name: "DMZ".to_string(),
            description: "edge".to_string(),
            limit_of_access: "public".to_string(),
            level_of_authorization: "none".to_string(),
        }],
        diagrams: decls,
        assets: vec![Asset { name: "tokens".to_string(), description: "session tokens".to_string() }],
    }
}

fn ring_rows(radius: i64, n: usize) -> Vec<Vec<Position>> {
    let mut rows = Vec::new();
    for count in 0..=n {
        let mut row = Vec::new();
        for k in 0..count {
            let angle = 2.0 * std::f64::consts::PI * (k as f64) / (count as f64);
            row.push(Position {
                x: ((radius as f64) * angle.cos()).round() as i64,
                y: ((radius as f64) * angle.sin()).round() as i64,
            });
        }
        rows.push(row);
    }
    rows
}

fn rings_for(n: usize) -> Rings {
    Rings { regions: ring_rows(REGION_CIRCLE_RADIUS, n), members: ring_rows(MEMBER_CIRCLE_RADIUS, n) }
}

#[test]
fn child_diagram_keeps_members_and_inner_flows() {
    let parent = InputDiagram {
        title: "P".to_string(),
        description: "parent".to_string(),
        nodes: vec![process("A"), process("B"), process("C"), flow("F1", "A", "B")],
    };
    let config = config_with(vec![Diagrams {
        name: "child".to_string(),
        parent: "P".to_string(),
        nodes: vec!["A".to_string(), "B".to_string()],
    }]);
    let children = parent.create_child_diagrams(&config);
    assert_eq!(children.len(), 1);
    let names: Vec<&str> = children[0].nodes.iter().map(|n| n.name.as_str()).collect();
    assert_eq!(names, vec!["A", "B", "F1"]);
    assert_eq!(children[0].title, "child");
    assert_eq!(children[0].description, "parent");
}

#[test]
fn child_diagram_drops_flow_with_outside_endpoint() {
    let parent = InputDiagram {
        title: "P".to_string(),
        description: String::new(),
        nodes: vec![flow("F2", "A", "C"), process("A"), process("C"), flow("F1", "A", "A")],
    };
    let config = config_with(vec![Diagrams {
        name: "child".to_string(),
        parent: "P".to_string(),
        nodes: vec!["A".to_string()],
    }]);
    let children = parent.create_child_diagrams(&config);
    let names: Vec<&str> = children[0].nodes.iter().map(|n| n.name.as_str()).collect();
    assert_eq!(names, vec!["A", "F1"]);
}

#[test]
fn child_diagram_unknown_parent_is_skipped() {
    let parent = InputDiagram { title: "P".to_string(), description: String::new(), nodes: vec![process("A")] };
    let config = config_with(vec![
        Diagrams { name: "x".to_string(), parent: "Other".to_string(), nodes: vec!["A".to_string()] },
        Diagrams { name: "y".to_string(), parent: "P".to_string(), nodes: vec![] },
    ]);
    let children = parent.create_child_diagrams(&config);
    assert_eq!(children.len(), 1);
    assert_eq!(children[0].title, "y");
    assert!(children[0].nodes.is_empty());
}

#[test]
fn rings_cover_check() {
    let rings = rings_for(3);
    assert!(rings.covers_exec(3));
    assert!(!rings.covers_exec(4));
    let mut bad = rings_for(3);
    bad.members[2].push(Position { x: 0, y: 0 });
    assert!(!bad.covers_exec(3));
    let mut far = rings_for(3);
    far.regions[1][0] = Position { x: 451, y: 0 };
    assert!(!far.covers_exec(2));
}

#[test]
fn inputs_expand_with_their_children() {
    let p = InputDiagram { title: "P".to_string(), description: "p".to_string(), nodes: vec![process("A"), process("B")] };
    let q = InputDiagram { title: "Q".to_string(), description: "q".to_string(), nodes: vec![process("C")] };
    let config = config_with(vec![
        Diagrams { name: "p1".to_string(), parent: "P".to_string(), nodes: vec!["A".to_string()] },
        Diagrams { name: "q1".to_string(), parent: "Q".to_string(), nodes: vec!["C".to_string()] },
        Diagrams { name: "p2".to_string(), parent: "P".to_string(), nodes: vec!["B".to_string()] },
    ]);
    let all = expand_with_children(&vec![p, q], &config);
    let titles: Vec<&str> = all.iter().map(|d| d.title.as_str()).collect();
    assert_eq!(titles, vec!["P", "p1", "p2", "Q", "q1"]);
    assert_eq!(all[0].nodes.len(), 2);
    assert_eq!(all[2].nodes[0].name, "B");
    assert_eq!(all[4].nodes[0].name, "C");
}
