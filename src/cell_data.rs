//! Cell payloads, and resolution of threat references against the catalog
//! (the last entry with a title wins).

use vstd::prelude::*;
use crate::config::Config;
use crate::ids::{fresh_id, ID_LEN};
use crate::input::Node;
use crate::process::{MappingFromInputNodeAndThreats, MappingFromInputThreat};
use crate::threat;

verus! {

/// The data payload of a cell: what the element is, and its resolved threats.
#[derive(Debug)]
pub struct CellData {
    pub type_field: String,
    pub name: String,
    pub description: String,
    pub out_of_scope: Option<bool>,
    pub reason_out_of_scope: Option<String>,
    pub has_open_threats: bool,
    pub threats: Vec<Threat>,
}

/// A catalog threat materialized for one cell, with an identifier of its own.
#[derive(Debug)]
pub struct Threat {
    pub id: String,
    pub title: String,
    pub status: String,
    pub severity: String,
    pub type_field: String,
    pub description: String,
    pub mitigation: String,
    pub model_type: String,
    pub new: bool,
    pub number: u32,
    pub score: String,
}

/// The last catalog entry whose title is `title`.
pub open spec fn last_match(catalog: Seq<threat::Threat>, title: Seq<char>) -> Option<threat::Threat>
    decreases catalog.len(),
{
    if catalog.len() == 0 {
        None
    } else if catalog.last().title@ == title {
        Some(catalog.last())
    } else {
        last_match(catalog.drop_last(), title)
    }
}

/// The catalog entries that the referenced titles resolve to, in reference
/// order; titles with no entry are left out.
pub open spec fn resolved_entries(catalog: Seq<threat::Threat>, titles: Seq<String>) -> Seq<threat::Threat>
    decreases titles.len(),
{
    if titles.len() == 0 {
        Seq::empty()
    } else {
        let prev = resolved_entries(catalog, titles.drop_last());
        match last_match(catalog, titles.last()@) {
            Some(t) => prev.push(t),
            None => prev,
        }
    }
}

impl Threat {
    /// Every field but the identifier.
    pub open spec fn same_except_id(self, o: Threat) -> bool {
        &&& self.title@ == o.title@
        &&& self.status@ == o.status@
        &&& self.severity@ == o.severity@
        &&& self.type_field@ == o.type_field@
        &&& self.description@ == o.description@
        &&& self.mitigation@ == o.mitigation@
        &&& self.model_type@ == o.model_type@
        &&& self.new == o.new
        &&& self.number == o.number
        &&& self.score@ == o.score@
    }

    /// This record materializes the catalog entry `t`.
    pub open spec fn materializes(self, t: threat::Threat) -> bool {
        &&& self.id@.len() == ID_LEN
        &&& self.title@ == t.title@
        &&& self.status@ == t.status.label()
        &&& self.severity@ == t.severity.label()
        &&& self.type_field@ == t.type_field.label()
        &&& self.description@ == t.description@
        &&& self.mitigation@ == t.mitigation@
        &&& self.model_type@ == "STRIDE"@
        &&& !self.new
        &&& self.number == 1
        &&& self.score@ == Seq::<char>::empty()
    }
}

impl MappingFromInputThreat for Threat {
    fn from_input_diagram(input_threat: &threat::Threat, config: &Config) -> (r: Self)
        ensures
            r.materializes(*input_threat),
    {
        Threat {
            id: fresh_id(),
            title: input_threat.title.clone(),
            status: input_threat.status.to_string(),
            severity: input_threat.severity.to_string(),
            type_field: input_threat.type_field.to_string(),
            description: input_threat.description.clone(),
            mitigation: input_threat.mitigation.clone(),
            model_type: String::from_str("STRIDE"),
            new: false,
            number: 1,
            score: String::new(),
        }
    }
}

/// Looks a title up in the catalog; the last entry with that title wins.
pub fn find_last_threat<'a>(catalog: &'a Vec<threat::Threat>, title: &String) -> (r: Option<&'a threat::Threat>)
    ensures
        match r {
            Some(t) => last_match(catalog@, title@) == Some(*t),
            None => last_match(catalog@, title@) is None,
        },
{
    let mut i: usize = catalog.len();
    proof {
        assert(catalog@.subrange(0, i as int) == catalog@);
    }
    while i > 0
        invariant
            i <= catalog@.len(),
            last_match(catalog@, title@) == last_match(catalog@.subrange(0, i as int), title@),
        decreases i,
    {
        proof {
            assert(catalog@.subrange(0, i as int).drop_last() == catalog@.subrange(0, i - 1));
        }
        if catalog[i - 1].title == *title {
            return Some(&catalog[i - 1]);
        }
        i = i - 1;
    }
    None
}

/// Materializes every referenced threat that the catalog holds.
pub fn resolve_threats(titles: &Vec<String>, catalog: &Vec<threat::Threat>, config: &Config) -> (r: Vec<Threat>)
    ensures
        r@.len() == resolved_entries(catalog@, titles@).len(),
        forall|k: int| 0 <= k < r@.len() ==> #[trigger] r@[k].materializes(resolved_entries(catalog@, titles@)[k]),
{
    let mut out: Vec<Threat> = Vec::new();
    let mut i: usize = 0;
    while i < titles.len()
        invariant
            i <= titles@.len(),
            out@.len() == resolved_entries(catalog@, titles@.subrange(0, i as int)).len(),
            forall|k: int| 0 <= k < out@.len() ==> #[trigger] out@[k].materializes(
                resolved_entries(catalog@, titles@.subrange(0, i as int))[k],
            ),
        decreases titles@.len() - i,
    {
        proof {
            assert(titles@.subrange(0, i + 1).drop_last() == titles@.subrange(0, i as int));
        }
        match find_last_threat(catalog, &titles[i]) {
            Some(t) => {
                let m = Threat::from_input_diagram(t, config);
                out.push(m);
            }
            None => {}
        }
        i = i + 1;
    }
    proof {
        assert(titles@.subrange(0, titles@.len() as int) == titles@);
    }
    out
}

impl CellData {
    /// The payload that mapping `node` against `catalog` gives, up to the
    /// identifiers of its threats.
    pub open spec fn maps_node(self, node: Node, catalog: Seq<threat::Threat>) -> bool {
        let entries = resolved_entries(catalog, node.threats@);
        &&& self.type_field@ == node.type_node.model_label()
        &&& self.name == node.name
        &&& self.description == node.description
        &&& self.out_of_scope == node.out_of_scope
        &&& self.reason_out_of_scope matches Some(s) && s@ == Seq::<char>::empty()
        &&& !self.has_open_threats
        &&& self.threats@.len() == entries.len()
        &&& forall|k: int| 0 <= k < entries.len() ==> #[trigger] self.threats@[k].materializes(entries[k])
    }

    /// Every field but the identifiers of the threats.
    pub open spec fn same_except_ids(self, o: CellData) -> bool {
        &&& self.type_field@ == o.type_field@
        &&& self.name@ == o.name@
        &&& self.description@ == o.description@
        &&& self.out_of_scope == o.out_of_scope
        &&& match (self.reason_out_of_scope, o.reason_out_of_scope) {
            (Some(a), Some(b)) => a@ == b@,
            (None, None) => true,
            _ => false,
        }
        &&& self.has_open_threats == o.has_open_threats
        &&& self.threats@.len() == o.threats@.len()
        &&& forall|k: int| 0 <= k < self.threats@.len() ==> #[trigger] self.threats@[k].same_except_id(o.threats@[k])
    }
}

impl MappingFromInputNodeAndThreats for CellData {
    fn from_input_diagram(input_node: &Node, config: &Config, threats: &Vec<threat::Threat>) -> (r: Self)
        ensures
            r.maps_node(*input_node, threats@),
    {
        CellData {
            type_field: input_node.type_node.model_string(),
            name: input_node.name.clone(),
            description: input_node.description.clone(),
            out_of_scope: input_node.out_of_scope,
            reason_out_of_scope: Some(String::new()),
            has_open_threats: false,
            threats: resolve_threats(&input_node.threats, threats, config),
        }
    }
}

} // verus!
