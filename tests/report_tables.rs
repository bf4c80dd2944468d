use threat_dragon_builder::config::{Asset, Config, Diagrams, TrustBoundary};
use threat_dragon_builder::reports::{
    asset_rows, entry_point_rows, software_rows, threat_table_rows, trust_boundary_rows, vector_rows,
};
use threat_dragon_builder::order::title_less_exec;
use threat_dragon_builder::input::{InputDiagram, Node, TypeNode};
use threat_dragon_builder::threat::{Severity, Status, Threat, TypeThreat};

fn process(name: &str) -> Node {
    Node {
        name: name.to_string(),
        type_node: TypeNode::Process,
        description: format!("{} component", name),
        out_of_scope: None,
        trust_boundary: None,
        trust_level: None,
        asset: None,
        source: None,
        destination: None,
        threats: Vec::new(),
    }
}

fn flow(name: &str, from: &str, to: &str) -> Node {
    Node {
        name: name.to_string(),
        type_node: TypeNode::Flow,
        description: format!("{} link", name),
        out_of_scope: None,
        trust_boundary: None,
        trust_level: None,
        asset: None,
        source: Some(from.to_string()),
        destination: Some(to.to_string()),
        threats: Vec::new(),
    }
}

fn catalog_entry(title: &str, severity: Severity) -> Threat {
    Threat {
        title: title.to_string(),
        status: Status::Open,
        severity,
        type_field: TypeThreat::Tampering,
        description: format!("{} threat", title),
        mitigation: "validate input".to_string(),
        vector: Some("network".to_string()),
    }
}

fn config_with(decls: Vec<Diagrams>) -> Config {
    Config {
        threat_dragon_version: "2.2.0".to_string(),
        title: "Model".to_string(),
        owner: "Team".to_string(),
        description: "A model".to_string(),
        trust_boundaries: vec![TrustBoundary {
            name: "DMZ".to_string(),
            description: "edge".to_string(),
            limit_of_access: "public".to_string(),
            level_of_authorization: "none".to_string(),
        }],
        diagrams: decls,
        assets: vec![Asset { name: "tokens".to_string(), description: "session tokens".to_string() }],
    }
}


fn table(rows: &[&[&str]]) -> Vec<Vec<String>> {
    rows.iter().map(|r| r.iter().map(|c| c.to_string()).collect()).collect()
}

fn sample() -> InputDiagram {
    let mut app = process("App");
    app.out_of_scope = Some(false);
    app.trust_level = Some("high".to_string());
    app.threats = vec!["T1".to_string(), "Nope".to_string()];
    let mut user = process("User");
    user.out_of_scope = Some(true);
    user.trust_boundary = Some("DMZ".to_string());
    let mut db = process("Db");
    db.trust_boundary = Some("Vault".to_string());
    let mut login = flow("Login", "User", "App");
    login.asset = Some("tokens".to_string());
    login.trust_level = Some("low".to_string());
    login.threats = vec!["T2".to_string()];
    let mut reply = flow("Reply", "App", "User");
    reply.asset = Some("tokens".to_string());
    let mut ghost = flow("Ghost", "User", "Missing");
    ghost.asset = Some("unknown".to_string());
    InputDiagram {
        title: "Main".to_string(),
        description: String::new(),
        nodes: vec![app, user, db, login, reply, ghost],
    }
}

fn sample_catalog() -> Vec<Threat> {
    let mut t2 = catalog_entry("T2", Severity::High);
    t2.vector = Some("phishing".to_string());
    t2.status = Status::Mitigated;
    t2.type_field = TypeThreat::Spoofing;
    let mut t1 = catalog_entry("T1", Severity::Low);
    t1.status = Status::NotApplicable;
    t1.type_field = TypeThreat::InformationDisclosure;
    vec![t1, t2]
}

#[test]
fn software_table() {
    let r = software_rows(&sample());
    assert_eq!(
        r,
        table(&[
            &["App", "App component", "high", "No"],
            &["User", "User component", "", "Yes"],
            &["Db", "Db component", "", ""],
        ])
    );
}

#[test]
fn entry_point_table() {
    let r = entry_point_rows(&sample());
    assert_eq!(
        r,
        table(&[
            &["Login", "Entry", "Login link", "tokens", "low", "App"],
            &["Reply", "Exit", "Reply link", "tokens", "Unknown", "App"],
            &["Ghost", "", "Ghost link", "unknown", "Unknown", "Unknown"],
        ])
    );
}

#[test]
fn threat_table() {
    let r = threat_table_rows(&sample(), &sample_catalog());
    assert_eq!(
        r,
        table(&[
            &["App", "process", "Information disclosure", "T1 threat", "network", "NotApplicable", "validate input"],
            &["Login", "flow", "Spoofing", "T2 threat", "phishing", "Mitigated", "validate input"],
        ])
    );
}

#[test]
fn trust_boundary_table() {
    let r = trust_boundary_rows(&sample(), &config_with(vec![]));
    assert_eq!(r, table(&[&["DMZ", "edge", "public", "none"]]));
}

#[test]
fn asset_table() {
    let r = asset_rows(&sample(), &config_with(vec![]));
    assert_eq!(r, table(&[&["tokens", "session tokens"]]));
}

#[test]
fn vector_table() {
    let mut d = sample();
    d.nodes[4].threats = vec!["T1".to_string(), "T2".to_string()];
    let r = vector_rows(&d, &sample_catalog());
    assert_eq!(r, table(&[&["network"], &["phishing"]]));
}

#[test]
fn enum_labels() {
    assert_eq!(Status::Open.to_string(), "Open");
    assert_eq!(Status::NotApplicable.to_string(), "NotApplicable");
    assert_eq!(Status::Mitigated.to_string(), "Mitigated");
    assert_eq!(Severity::Low.to_string(), "Low");
    assert_eq!(Severity::Medium.to_string(), "Medium");
    assert_eq!(Severity::High.to_string(), "High");
    assert_eq!(TypeThreat::Repudiation.to_string(), "Repudiation");
    assert_eq!(TypeThreat::DenialOfService.to_string(), "Denial of service");
    assert_eq!(TypeThreat::ElevationOfPrivilege.to_string(), "Elevation of privilege");
    assert_eq!(TypeNode::Process.model_string(), "tm.Process");
}

#[test]
fn title_order_is_lexicographic() {
    let s = |x: &str| x.to_string();
    assert!(title_less_exec(&s("ab"), &s("b")));
    assert!(!title_less_exec(&s("b"), &s("ab")));
    assert!(title_less_exec(&s(""), &s("a")));
    assert!(!title_less_exec(&s("a"), &s("a")));
    assert!(title_less_exec(&s("a"), &s("ab")));
    assert!(title_less_exec(&s("Z"), &s("a")));
    assert!(title_less_exec(&s("z"), &s("é")));
}
