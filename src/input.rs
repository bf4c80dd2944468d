//! Architecture elements and source diagrams, and the derivation of
//! sub-scope (child) diagrams from them.

use vstd::prelude::*;
use crate::config::{Config, Diagrams};

verus! {

/// Kind of an architecture element.
#[derive(Debug, Clone, Copy, PartialEq, Eq, Structural)]
pub enum TypeNode {
    Process,
    Flow,
}

impl TypeNode {
    pub open spec fn label(self) -> Seq<char> {
        match self {
            TypeNode::Process => "process"@,
            TypeNode::Flow => "flow"@,
        }
    }

    pub fn to_string(&self) -> (r: String)
        ensures
            r@ == self.label(),
    {
        match self {
            TypeNode::Process => String::from_str("process"),
            TypeNode::Flow => String::from_str("flow"),
        }
    }

    /// The model type that a cell of this kind carries.
    pub open spec fn model_label(self) -> Seq<char> {
        match self {
            TypeNode::Process => "tm.Process"@,
            TypeNode::Flow => "tm.Flow"@,
        }
    }

    pub fn model_string(&self) -> (r: String)
        ensures
            r@ == self.model_label(),
    {
        match self {
            TypeNode::Process => String::from_str("tm.Process"),
            TypeNode::Flow => String::from_str("tm.Flow"),
        }
    }
}

/// An architecture element: a process, or a flow between two named nodes.
#[derive(Debug)]
pub struct Node {
    pub name: String,
    pub type_node: TypeNode,
    pub description: String,
    pub out_of_scope: Option<bool>,
    pub trust_boundary: Option<String>,
    pub trust_level: Option<String>,
    pub asset: Option<String>,
    pub source: Option<String>,
    pub destination: Option<String>,
    pub threats: Vec<String>,
}

/// `names` holds a string whose characters are `name`.
pub open spec fn names_contain(names: Seq<String>, name: Seq<char>) -> bool {
    exists|i: int| 0 <= i < names.len() && names[i]@ == name
}

/// Names held by a vector of strings, as character sequences.
pub open spec fn string_views(v: Seq<String>) -> Seq<Seq<char>> {
    v.map_values(|s: String| s@)
}

/// The declared member names hold the optional name.
pub open spec fn names_contain_opt(names: Seq<String>, name: Option<String>) -> bool {
    match name {
        Some(n) => names_contain(names, n@),
        None => false,
    }
}

impl Node {
    /// Equal in every field; the threat list is compared by contents.
    pub open spec fn equiv(self, other: Node) -> bool {
        &&& self.name == other.name
        &&& self.type_node == other.type_node
        &&& self.description == other.description
        &&& self.out_of_scope == other.out_of_scope
        &&& self.trust_boundary == other.trust_boundary
        &&& self.trust_level == other.trust_level
        &&& self.asset == other.asset
        &&& self.source == other.source
        &&& self.destination == other.destination
        &&& self.threats@ == other.threats@
    }

    /// A process whose name is among the declared member names.
    pub open spec fn is_member_of(self, names: Seq<String>) -> bool {
        self.type_node == TypeNode::Process && names_contain(names, self.name@)
    }

    /// A flow whose two endpoints are both among the declared member names.
    pub open spec fn is_flow_within(self, names: Seq<String>) -> bool {
        &&& self.type_node == TypeNode::Flow
        &&& names_contain_opt(names, self.source)
        &&& names_contain_opt(names, self.destination)
    }

    pub open spec fn is_out_of_scope(self) -> bool {
        self.out_of_scope == Some(true)
    }
}

impl Clone for Node {
    fn clone(&self) -> (r: Self)
        ensures
            r.equiv(*self),
    {
        Node {
            name: self.name.clone(),
            type_node: self.type_node,
            description: self.description.clone(),
            out_of_scope: self.out_of_scope,
            trust_boundary: self.trust_boundary.clone(),
            trust_level: self.trust_level.clone(),
            asset: self.asset.clone(),
            source: self.source.clone(),
            destination: self.destination.clone(),
            threats: self.threats.clone(),
        }
    }
}

/// One source diagram: a title and its architecture elements.
#[derive(Debug)]
pub struct InputDiagram {
    pub title: String,
    pub description: String,
    pub nodes: Vec<Node>,
}

impl InputDiagram {
    /// Equal in title and description, with equivalent nodes.
    pub open spec fn equiv(self, other: InputDiagram) -> bool {
        &&& self.title == other.title
        &&& self.description == other.description
        &&& nodes_equiv(self.nodes@, other.nodes@)
    }
}

impl Clone for InputDiagram {
    fn clone(&self) -> (r: Self)
        ensures
            r.equiv(*self),
    {
        let nodes = self.nodes.clone();
        proof {
            assert forall|k: int| 0 <= k < nodes@.len() implies #[trigger] nodes@[k].equiv(self.nodes@[k]) by {
                assert(cloned::<Node>(self.nodes@[k], nodes@[k]));
            }
        }
        InputDiagram { title: self.title.clone(), description: self.description.clone(), nodes }
    }
}

/// How many diagrams expanding `inputs` gives: each input and its children.
pub open spec fn expanded_len(inputs: Seq<InputDiagram>, decls: Seq<Diagrams>) -> nat
    decreases inputs.len(),
{
    if inputs.len() == 0 {
        0
    } else {
        expanded_len(inputs.drop_last(), decls) + 1 + inputs.last().declarations_for(decls).len()
    }
}

/// `out` lists every input followed by its child diagrams, in order.
pub open spec fn expands(out: Seq<InputDiagram>, inputs: Seq<InputDiagram>, decls: Seq<Diagrams>) -> bool {
    &&& out.len() == expanded_len(inputs, decls)
    &&& forall|i: int| 0 <= i < inputs.len() ==> {
        let at = expanded_len(inputs.subrange(0, i), decls) as int;
        let ds = (#[trigger] inputs[i]).declarations_for(decls);
        &&& out[at].equiv(inputs[i])
        &&& forall|k: int| 0 <= k < ds.len() ==> inputs[i].is_child(ds[k], #[trigger] out[at + 1 + k])
    }
}

/// Every input diagram, each followed by the child diagrams that the
/// configuration derives from it.
pub fn expand_with_children(inputs: &Vec<InputDiagram>, config: &Config) -> (r: Vec<InputDiagram>)
    ensures
        expands(r@, inputs@, config.diagrams@),
{
    let ghost decls = config.diagrams@;
    let mut out: Vec<InputDiagram> = Vec::new();
    let mut i: usize = 0;
    while i < inputs.len()
        invariant
            i <= inputs@.len(),
            decls == config.diagrams@,
            expands(out@, inputs@.subrange(0, i as int), decls),
        decreases inputs@.len() - i,
    {
        let ghost prev = out@;
        let ghost sub = inputs@.subrange(0, i + 1);
        let parent = inputs[i].clone();
        let mut children = inputs[i].create_child_diagrams(config);
        let ghost kids = children@;
        out.push(parent);
        out.append(&mut children);
        proof {
            let ds = inputs@[i as int].declarations_for(decls);
            assert(sub.drop_last() == inputs@.subrange(0, i as int));
            assert(sub.last() == inputs@[i as int]);
            assert(expanded_len(sub, decls) == prev.len() + 1 + ds.len());
            assert forall|t: int| 0 <= t < sub.len() implies {
                let at = expanded_len(sub.subrange(0, t), decls) as int;
                let dt = (#[trigger] sub[t]).declarations_for(decls);
                &&& out@[at].equiv(sub[t])
                &&& forall|k: int| 0 <= k < dt.len() ==> sub[t].is_child(dt[k], #[trigger] out@[at + 1 + k])
            } by {
                if t < i {
                    assert(sub.subrange(0, t) == inputs@.subrange(0, i as int).subrange(0, t));
                    assert(sub[t] == inputs@.subrange(0, i as int)[t]);
                    let at = expanded_len(sub.subrange(0, t), decls) as int;
                    let dt = sub[t].declarations_for(decls);
                    assert(at + 1 + dt.len() <= prev.len()) by {
                        lemma_expanded_prefix(inputs@.subrange(0, i as int), decls, t);
                    }
                    assert forall|k: int| 0 <= k < dt.len() implies sub[t].is_child(dt[k], #[trigger] out@[at + 1 + k]) by {
                        assert(out@[at + 1 + k] == prev[at + 1 + k]);
                    }
                    assert(out@[at] == prev[at]);
                } else {
                    assert(sub.subrange(0, t) == inputs@.subrange(0, i as int));
                    assert(out@[prev.len() as int] == parent);
                    assert forall|k: int| 0 <= k < ds.len() implies sub[t].is_child(ds[k], #[trigger] out@[prev.len() + 1 + k]) by {
                        assert(out@[prev.len() + 1 + k] == kids[k]);
                    }
                }
            }
        }
        i = i + 1;
    }
    proof {
        assert(inputs@.subrange(0, inputs@.len() as int) == inputs@);
    }
    out
}

/// The diagrams of a prefix of the inputs lie within the expansion of the whole.
proof fn lemma_expanded_prefix(inputs: Seq<InputDiagram>, decls: Seq<Diagrams>, t: int)
    requires
        0 <= t < inputs.len(),
    ensures
        expanded_len(inputs.subrange(0, t), decls) + 1 + inputs[t].declarations_for(decls).len() <= expanded_len(inputs, decls),
    decreases inputs.len(),
{
    if t < inputs.len() - 1 {
        assert(inputs.drop_last().subrange(0, t) == inputs.subrange(0, t));
        assert(inputs.drop_last()[t] == inputs[t]);
        lemma_expanded_prefix(inputs.drop_last(), decls, t);
    } else {
        assert(inputs.drop_last() == inputs.subrange(0, t));
    }
}

/// The nodes of `nodes` that a child with member names `names` keeps:
/// the member processes in their order, then the flows between members.
pub open spec fn child_nodes(nodes: Seq<Node>, names: Seq<String>) -> Seq<Node> {
    nodes.filter(member_pred(names)) + nodes.filter(flow_pred(names))
}

pub open spec fn member_pred(names: Seq<String>) -> spec_fn(Node) -> bool {
    |n: Node| n.is_member_of(names)
}

pub open spec fn flow_pred(names: Seq<String>) -> spec_fn(Node) -> bool {
    |n: Node| n.is_flow_within(names)
}

pub open spec fn parent_pred(title: Seq<char>) -> spec_fn(Diagrams) -> bool {
    |d: Diagrams| d.parent@ == title
}

/// Pointwise `equiv` of two node sequences.
pub open spec fn nodes_equiv(a: Seq<Node>, b: Seq<Node>) -> bool {
    a.len() == b.len() && forall|k: int| 0 <= k < a.len() ==> #[trigger] a[k].equiv(b[k])
}

impl InputDiagram {
    /// `child` is the sub-scope diagram that `decl` derives from this diagram.
    pub open spec fn is_child(self, decl: Diagrams, child: InputDiagram) -> bool {
        &&& child.title == decl.name
        &&& child.description == self.description
        &&& nodes_equiv(child.nodes@, child_nodes(self.nodes@, decl.nodes@))
    }

    /// The declarations that name this diagram as their parent, in order.
    pub open spec fn declarations_for(self, decls: Seq<Diagrams>) -> Seq<Diagrams> {
        decls.filter(parent_pred(self.title@))
    }

    /// Derives one child diagram per declaration naming this diagram as parent.
    pub fn create_child_diagrams(&self, config: &Config) -> (r: Vec<Self>)
        ensures
            r@.len() == self.declarations_for(config.diagrams@).len(),
            forall|k: int|
                0 <= k < r@.len() ==> self.is_child(
                    #[trigger] self.declarations_for(config.diagrams@)[k],
                    r@[k],
                ),
    {
        let mut child_list: Vec<InputDiagram> = Vec::new();
        let ghost decls = config.diagrams@;
        let mut i: usize = 0;
        while i < config.diagrams.len()
            invariant
                i <= decls.len(),
                decls == config.diagrams@,
                child_list@.len() == self.declarations_for(decls.subrange(0, i as int)).len(),
                forall|k: int|
                    0 <= k < child_list@.len() ==> self.is_child(
                        #[trigger] self.declarations_for(decls.subrange(0, i as int))[k],
                        child_list@[k],
                    ),
            decreases decls.len() - i,
        {
            let decl = &config.diagrams[i];
            proof {
                assert(decls.subrange(0, i + 1).drop_last() == decls.subrange(0, i as int));
            }
            let ghost before = decls.subrange(0, i as int).filter(parent_pred(self.title@));
            proof {
                reveal(Seq::filter);
                assert(decls.subrange(0, i + 1).last() == *decl);
                assert(parent_pred(self.title@)(*decl) == (decl.parent@ == self.title@));
            }
            if self.title == decl.parent {
                let child = self.child_for(decl);
                child_list.push(child);
                proof {
                    reveal(Seq::filter);
                    assert(decls.subrange(0, i + 1).filter(parent_pred(self.title@)) == before.push(*decl));
                }
            } else {
                proof {
                    reveal(Seq::filter);
                    assert(decls.subrange(0, i + 1).filter(parent_pred(self.title@)) == before);
                }
            }
            i = i + 1;
        }
        proof {
            assert(decls.subrange(0, decls.len() as int) == decls);
        }
        child_list
    }

    fn child_for(&self, decl: &Diagrams) -> (r: InputDiagram)
        ensures
            self.is_child(*decl, r),
    {
        let mut members: Vec<Node> = Vec::new();
        let mut flows: Vec<Node> = Vec::new();
        let ghost nodes = self.nodes@;
        let ghost is_m = member_pred(decl.nodes@);
        let ghost is_f = flow_pred(decl.nodes@);
        let mut i: usize = 0;
        while i < self.nodes.len()
            invariant
                i <= nodes.len(),
                nodes == self.nodes@,
                is_m == member_pred(decl.nodes@),
                is_f == flow_pred(decl.nodes@),
                nodes_equiv(members@, nodes.subrange(0, i as int).filter(is_m)),
                nodes_equiv(flows@, nodes.subrange(0, i as int).filter(is_f)),
            decreases nodes.len() - i,
        {
            let node = &self.nodes[i];
            proof {
                assert(nodes.subrange(0, i + 1).drop_last() == nodes.subrange(0, i as int));
            }
            let ghost m0 = nodes.subrange(0, i as int).filter(is_m);
            let ghost f0 = nodes.subrange(0, i as int).filter(is_f);
            let ghost sub = nodes.subrange(0, i + 1);
            let keep_member = node.type_node == TypeNode::Process && contains_name(&decl.nodes, &node.name);
            let keep_flow = node.type_node == TypeNode::Flow && contains_opt_name(&decl.nodes, &node.source)
                && contains_opt_name(&decl.nodes, &node.destination);
            proof {
                reveal(Seq::filter);
                assert(sub.last() == *node);
                assert(is_m(*node) == node.is_member_of(decl.nodes@));
                assert(is_f(*node) == node.is_flow_within(decl.nodes@));
            }
            if keep_member {
                members.push(node.clone());
            }
            if keep_flow {
                flows.push(node.clone());
            }
            proof {
                reveal(Seq::filter);
                if keep_member {
                    assert(sub.filter(is_m) == m0.push(*node));
                } else {
                    assert(sub.filter(is_m) == m0);
                }
                if keep_flow {
                    assert(sub.filter(is_f) == f0.push(*node));
                } else {
                    assert(sub.filter(is_f) == f0);
                }
            }
            i = i + 1;
        }
        proof {
            assert(nodes.subrange(0, nodes.len() as int) == nodes);
        }
        let ghost m = members@;
        let ghost fl = flows@;
        members.append(&mut flows);
        proof {
            let target = child_nodes(nodes, decl.nodes@);
            assert forall|k: int| 0 <= k < members@.len() implies #[trigger] members@[k].equiv(target[k]) by {
                if k < m.len() {
                    assert(members@[k] == m[k]);
                } else {
                    assert(members@[k] == fl[k - m.len()]);
                }
            }
        }
        InputDiagram { title: decl.name.clone(), description: self.description.clone(), nodes: members }
    }
}

/// Whether `names` holds `name`.
pub fn contains_name(names: &Vec<String>, name: &String) -> (r: bool)
    ensures
        r == names_contain(names@, name@),
{
    let mut i: usize = 0;
    while i < names.len()
        invariant
            i <= names@.len(),
            forall|j: int| 0 <= j < i ==> names@[j]@ != name@,
        decreases names@.len() - i,
    {
        if names[i] == *name {
            return true;
        }
        i = i + 1;
    }
    false
}

/// Whether the optional name is present and held by `names`.
pub fn contains_opt_name(names: &Vec<String>, name: &Option<String>) -> (r: bool)
    ensures
        r == names_contain_opt(names@, *name),
{
    match name {
        Some(n) => contains_name(names, n),
        None => false,
    }
}

} // verus!
