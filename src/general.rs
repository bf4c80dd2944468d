//! The threat-model document: one diagram per title, sorted by title.

use vstd::prelude::*;
use crate::config::{Config, ConfigError, ConfigYaml};
use crate::diagram::Diagram;
use crate::layout::Rings;
use crate::input::InputDiagram;
use crate::order::{lemma_less_irreflexive, lemma_less_total, lemma_less_transitive, title_less, title_less_exec};
use crate::process::{MappingFromInputDiagram, MappingFromVecInputDiagram};
use crate::threat::Threat;

verus! {

/// The threat-model document: version, summary and diagrams.
#[derive(Debug)]
pub struct ThreatModeling {
    pub version: String,
    pub summary: Summary,
    pub detail: Detail,
}

/// Metadata of the threat model, taken from the configuration.
#[derive(Debug)]
pub struct Summary {
    pub title: String,
    pub owner: String,
    pub description: String,
    pub id: u32,
}

/// The diagrams of the threat model, one per title, sorted by title.
#[derive(Debug)]
pub struct Detail {
    pub contributors: Vec<String>,
    pub diagrams: Vec<Diagram>,
    pub diagram_top: u32,
    pub reviewer: String,
    pub threat_top: u32,
}

impl Summary {
    pub fn new(config: &Config) -> (r: Self)
        ensures
            r.title == config.title,
            r.owner == config.owner,
            r.description == config.description,
            r.id == 0,
    {
        Summary {
            title: config.title.clone(),
            owner: config.owner.clone(),
            description: config.description.clone(),
            id: 0,
        }
    }
}

/// Input `j` is the last of the first `upto` inputs with its title.
pub open spec fn last_titled(inputs: Seq<InputDiagram>, j: int, upto: int) -> bool {
    0 <= j < upto && forall|t: int| j < t < upto ==> inputs[t].title@ != inputs[j].title@
}

/// Titles strictly increase.
pub open spec fn sorted_by_title(ds: Seq<Diagram>) -> bool {
    forall|u: int, v: int| 0 <= u < v < ds.len() ==> title_less(#[trigger] ds[u].title@, #[trigger] ds[v].title@)
}

/// `d` is the diagram built from input `j`.
pub open spec fn built_from(d: Diagram, j: int, inputs: Seq<InputDiagram>, config: Config, catalog: Seq<Threat>, rings: Rings) -> bool {
    &&& d.builds(j as usize, inputs[j], config, catalog, rings)
}

/// `d` is built from the last input of its title among the first `upto`.
pub open spec fn has_source(
    d: Diagram,
    inputs: Seq<InputDiagram>,
    upto: int,
    config: Config,
    catalog: Seq<Threat>,
    rings: Rings,
) -> bool {
    exists|j: int| last_titled(inputs, j, upto) && #[trigger] built_from(d, j, inputs, config, catalog, rings)
}

/// `ds` holds, sorted by title, the diagram built from the last input of each
/// title among the first `upto` inputs, and nothing else.
pub open spec fn collected(
    ds: Seq<Diagram>,
    inputs: Seq<InputDiagram>,
    upto: int,
    config: Config,
    catalog: Seq<Threat>,
    rings: Rings,
) -> bool {
    &&& sorted_by_title(ds)
    &&& forall|u: int| 0 <= u < ds.len() ==> #[trigger] has_source(ds[u], inputs, upto, config, catalog, rings)
    &&& forall|j: int| 0 <= j < upto ==> exists|u: int| 0 <= u < ds.len() && #[trigger] ds[u].title@ == #[trigger] inputs[j].title@
}

proof fn lemma_less_distinct(a: Seq<char>, b: Seq<char>)
    requires
        title_less(a, b),
    ensures
        a != b,
{
    lemma_less_irreflexive(a, 0);
}

/// Adds the diagram `d` built from input `j` to the collection of the inputs
/// before it, replacing the diagram of the same title if there is one.
fn collect_one(
    out: &mut Vec<Diagram>,
    d: Diagram,
    Ghost(j): Ghost<int>,
    Ghost(inputs): Ghost<Seq<InputDiagram>>,
    Ghost(config): Ghost<Config>,
    Ghost(catalog): Ghost<Seq<Threat>>,
    Ghost(rings): Ghost<Rings>,
)
    requires
        0 <= j < inputs.len(),
        collected(old(out)@, inputs, j, config, catalog, rings),
        built_from(d, j, inputs, config, catalog, rings),
    ensures
        collected(final(out)@, inputs, j + 1, config, catalog, rings),
{
    let ghost ds = out@;
    let ghost x = d.title@;
    let mut p: usize = 0;
    while p < out.len() && title_less_exec(&out[p].title, &d.title)
        invariant
            p <= out@.len(),
            out@ == ds,
            x == d.title@,
            forall|w: int| 0 <= w < p ==> title_less(#[trigger] ds[w].title@, x),
        decreases out@.len() - p,
    {
        p = p + 1;
    }
    if p < out.len() && out[p].title == d.title {
        let _ = out.remove(p);
        out.insert(p, d);
        proof {
            let nd = out@;
            assert(nd =~= ds.update(p as int, d));
            assert forall|u: int| 0 <= u < nd.len() implies nd[u].title@ == ds[u].title@ by {}
            assert forall|u: int, v: int| 0 <= u < v < nd.len() implies title_less(#[trigger] nd[u].title@, #[trigger] nd[v].title@) by {
                assert(title_less(ds[u].title@, ds[v].title@));
            }
            assert forall|u: int| 0 <= u < nd.len() implies #[trigger] has_source(nd[u], inputs, j + 1, config, catalog, rings) by {
                if u == p {
                    assert(last_titled(inputs, j, j + 1));
                    assert(built_from(nd[u], j, inputs, config, catalog, rings));
                } else {
                    assert(has_source(ds[u], inputs, j, config, catalog, rings));
                    let jj = choose|jj: int| last_titled(inputs, jj, j) && built_from(ds[u], jj, inputs, config, catalog, rings);
                    if u < p {
                        assert(title_less(ds[u].title@, ds[p as int].title@));
                    } else {
                        assert(title_less(ds[p as int].title@, ds[u].title@));
                    }
                    lemma_less_irreflexive(ds[u].title@, 0);
                    assert(ds[u].title@ != x);
                    assert(last_titled(inputs, jj, j + 1));
                    assert(built_from(nd[u], jj, inputs, config, catalog, rings));
                }
            }
            assert forall|jj: int| 0 <= jj < j + 1 implies exists|u: int| 0 <= u < nd.len() && #[trigger] nd[u].title@
                == #[trigger] inputs[jj].title@ by {
                if jj == j {
                    assert(nd[p as int].title@ == inputs[jj].title@);
                } else {
                    let u = choose|u: int| 0 <= u < ds.len() && #[trigger] ds[u].title@ == inputs[jj].title@;
                    assert(nd[u].title@ == inputs[jj].title@);
                }
            }
        }
    } else {
        proof {
            assert forall|w: int| 0 <= w < ds.len() implies #[trigger] ds[w].title@ != x by {
                if w < p {
                    lemma_less_distinct(ds[w].title@, x);
                } else {
                    assert(!title_less(ds[p as int].title@, x));
                    assert(ds[p as int].title@ != x);
                    lemma_less_total(ds[p as int].title@, x, 0);
                    if w > p {
                        assert(title_less(ds[p as int].title@, ds[w].title@));
                        lemma_less_transitive(x, ds[p as int].title@, ds[w].title@, 0);
                    }
                    lemma_less_distinct(x, ds[w].title@);
                }
            }
            assert forall|w: int| p <= w < ds.len() implies title_less(x, #[trigger] ds[w].title@) by {
                assert(!title_less(ds[p as int].title@, x));
                assert(ds[p as int].title@ != x);
                lemma_less_total(ds[p as int].title@, x, 0);
                if w > p {
                    assert(title_less(ds[p as int].title@, ds[w].title@));
                    lemma_less_transitive(x, ds[p as int].title@, ds[w].title@, 0);
                }
            }
        }
        out.insert(p, d);
        proof {
            let nd = out@;
            assert(nd == ds.insert(p as int, d));
            assert forall|u: int, v: int| 0 <= u < v < nd.len() implies title_less(#[trigger] nd[u].title@, #[trigger] nd[v].title@) by {
                if v < p {
                    assert(title_less(ds[u].title@, ds[v].title@));
                } else if v == p {
                    assert(title_less(ds[u].title@, x));
                } else if u < p {
                    assert(title_less(ds[u].title@, ds[v - 1].title@));
                } else if u == p {
                    assert(title_less(x, ds[v - 1].title@));
                } else {
                    assert(title_less(ds[u - 1].title@, ds[v - 1].title@));
                }
            }
            assert forall|u: int| 0 <= u < nd.len() implies #[trigger] has_source(nd[u], inputs, j + 1, config, catalog, rings) by {
                if u == p {
                    assert(last_titled(inputs, j, j + 1));
                    assert(built_from(nd[u], j, inputs, config, catalog, rings));
                } else {
                    let w = if u < p { u } else { u - 1 };
                    assert(nd[u] == ds[w]);
                    assert(has_source(ds[w], inputs, j, config, catalog, rings));
                    let jj = choose|jj: int| last_titled(inputs, jj, j) && built_from(ds[w], jj, inputs, config, catalog, rings);
                    assert(ds[w].title@ != x);
                    assert(last_titled(inputs, jj, j + 1));
                    assert(built_from(nd[u], jj, inputs, config, catalog, rings));
                }
            }
            assert forall|jj: int| 0 <= jj < j + 1 implies exists|u: int| 0 <= u < nd.len() && #[trigger] nd[u].title@
                == #[trigger] inputs[jj].title@ by {
                if jj == j {
                    assert(nd[p as int].title@ == inputs[jj].title@);
                } else {
                    let w = choose|w: int| 0 <= w < ds.len() && #[trigger] ds[w].title@ == inputs[jj].title@;
                    if w < p {
                        assert(nd[w].title@ == inputs[jj].title@);
                    } else {
                        assert(nd[w + 1].title@ == inputs[jj].title@);
                    }
                }
            }
        }
    }
}

impl MappingFromVecInputDiagram for Detail {
    fn from_input_diagram(
        input_diagram: &Vec<InputDiagram>,
        config: &Config,
        threats: &Vec<Threat>,
        rings: &Rings,
    ) -> (r: Self)
        ensures
            collected(r.diagrams@, input_diagram@, input_diagram@.len() as int, *config, threats@, *rings),
            r.contributors@.len() == 0,
            r.diagram_top == 0,
            r.reviewer@ == Seq::<char>::empty(),
            r.threat_top == 0,
    {
        let mut diagrams: Vec<Diagram> = Vec::new();
        let mut j: usize = 0;
        while j < input_diagram.len()
            invariant
                j <= input_diagram@.len(),
                forall|t: int| 0 <= t < input_diagram@.len() ==> rings.covers(#[trigger] input_diagram@[t].nodes@.len()),
                collected(diagrams@, input_diagram@, j as int, *config, threats@, *rings),
            decreases input_diagram@.len() - j,
        {
            let d = Diagram::from_input_diagram(j, &input_diagram[j], config, threats, rings);
            collect_one(
                &mut diagrams,
                d,
                Ghost(j as int),
                Ghost(input_diagram@),
                Ghost(*config),
                Ghost(threats@),
                Ghost(*rings),
            );
            j = j + 1;
        }
        Detail { contributors: Vec::new(), diagrams, diagram_top: 0, reviewer: String::new(), threat_top: 0 }
    }
}

impl ThreatModeling {
    pub fn new(input_diagram: &Vec<InputDiagram>, config: &Config, threats: &Vec<Threat>, rings: &Rings) -> (r: Self)
        requires
            forall|j: int| 0 <= j < input_diagram@.len() ==> rings.covers(#[trigger] input_diagram@[j].nodes@.len()),
        ensures
            r.version == config.threat_dragon_version,
            r.summary.title == config.title,
            r.summary.owner == config.owner,
            r.summary.description == config.description,
            r.summary.id == 0,
            collected(r.detail.diagrams@, input_diagram@, input_diagram@.len() as int, *config, threats@, *rings),
    {
        ThreatModeling {
            version: config.threat_dragon_version.clone(),
            summary: Summary::new(config),
            detail: Detail::from_input_diagram(input_diagram, config, threats, rings),
        }
    }
}

impl ConfigYaml for ThreatModeling {
    fn from_config(&mut self, config: &Config) -> (r: Result<(), ConfigError>)
        ensures
            r is Ok,
            final(self).version == config.threat_dragon_version,
            final(self).summary == old(self).summary,
            final(self).detail == old(self).detail,
    {
        self.version = config.threat_dragon_version.clone();
        Ok(())
    }
}

} // verus!
