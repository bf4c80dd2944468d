//! Mapping traits from input records to document records.

use vstd::prelude::*;
use crate::config::Config;
use crate::layout::Rings;
use crate::input::{InputDiagram, Node};
use crate::threat::Threat;

verus! {

/// Builds a value from one input diagram, its position among the diagrams,
/// and the circle points used for layout.
pub trait MappingFromInputDiagram: Sized {
    fn from_input_diagram(
        index: usize,
        input_diagram: &InputDiagram,
        config: &Config,
        threats: &Vec<Threat>,
        rings: &Rings,
    ) -> Self
        requires
            rings.covers(input_diagram.nodes@.len()),
    ;
}

/// Builds a value from all input diagrams.
pub trait MappingFromVecInputDiagram: Sized {
    fn from_input_diagram(
        input_diagram: &Vec<InputDiagram>,
        config: &Config,
        threats: &Vec<Threat>,
        rings: &Rings,
    ) -> Self
        requires
            forall|j: int| 0 <= j < input_diagram@.len() ==> rings.covers(#[trigger] input_diagram@[j].nodes@.len()),
    ;
}

/// Builds a value from one node.
pub trait MappingFromInputNode: Sized {
    fn from_input_diagram(input_node: &Node, config: &Config) -> Self;
}

/// Builds a value from one node and the threat catalog.
pub trait MappingFromInputNodeAndThreats: Sized {
    fn from_input_diagram(input_node: &Node, config: &Config, threats: &Vec<Threat>) -> Self;
}

/// Builds a value from one catalog threat.
pub trait MappingFromInputThreat: Sized {
    fn from_input_diagram(input_threat: &Threat, config: &Config) -> Self;
}

} // verus!
