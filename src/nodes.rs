//! Logic gates of the circuit genome and its output counters.
use vstd::prelude::*;

verus! {

/// The kind of a circuit node.
#[derive(Clone, Copy, Debug, PartialEq, Eq, Structural)]
pub enum NodeType {
    Input,
    Not,
    And,
    Or,
    Xor,
    Nand,
    Nor,
    Xnor,
}

/// Number of inputs a freshly made node of kind `t` expects.
pub open spec fn default_arity(t: NodeType) -> nat {
    if t == NodeType::Not { 1 } else { 2 }
}

/// The boolean function of a gate, on its input values `s`.
pub open spec fn gate_value(t: NodeType, s: Seq<bool>) -> bool {
    match t {
        NodeType::Not => !s[0],
        NodeType::And => s[0] && s[1],
        NodeType::Or => s[0] || s[1],
        NodeType::Xor => (s[0] || s[1]) && !(s[0] && s[1]),
        NodeType::Nand => !(s[0] && s[1]),
        NodeType::Nor => !(s[0] || s[1]),
        NodeType::Xnor => !(s[0] || s[1]) || (s[0] && s[1]),
        NodeType::Input => false,
    }
}

/// Whether a gate of kind `t` can be evaluated on `n` input values.
pub open spec fn can_process(t: NodeType, n: nat) -> bool {
    t != NodeType::Input && n >= default_arity(t)
}

/// The recipe name of a node kind.
pub open spec fn kind_name(t: NodeType) -> Seq<char> {
    match t {
        NodeType::Input => "NODE_INPUT"@,
        NodeType::Not => "NODE_NOT"@,
        NodeType::And => "NODE_AND"@,
        NodeType::Or => "NODE_OR"@,
        NodeType::Xor => "NODE_XOR"@,
        NodeType::Nand => "NODE_NAND"@,
        NodeType::Nor => "NODE_NOR"@,
        NodeType::Xnor => "NODE_XNOR"@,
    }
}

/// The recipe name of an output counter.
pub open spec fn output_name() -> Seq<char> {
    "NODE_OUTPUT"@
}

/// The values at positions `idx` of `values`.
pub open spec fn gather(idx: Seq<usize>, values: Seq<bool>) -> Seq<bool> {
    idx.map_values(|i: usize| values[i as int])
}

/// Whether every index of `idx` is below `n`.
pub open spec fn indexes_below(idx: Seq<usize>, n: int) -> bool {
    forall|k: int| 0 <= k < idx.len() ==> #[trigger] idx[k] < n
}

/// Number of true values in `s`.
pub open spec fn count_true(s: Seq<bool>) -> nat
    decreases s.len(),
{
    if s.len() == 0 {
        0
    } else {
        count_true(s.drop_last()) + if s.last() { 1nat } else { 0nat }
    }
}

/// Gathers the values at `idx`.
pub fn gather_exec(idx: &Vec<usize>, values: &[bool]) -> (r: Vec<bool>)
    requires
        indexes_below(idx@, values@.len() as int),
    ensures
        r@ == gather(idx@, values@),
{
    let mut r: Vec<bool> = Vec::new();
    let mut k: usize = 0;
    while k < idx.len()
        invariant
            k <= idx@.len(),
            indexes_below(idx@, values@.len() as int),
            r@ == gather(idx@.subrange(0, k as int), values@),
        decreases idx.len() - k,
    {
        let i = idx[k];
        assert(idx@[k as int] < values@.len());
        r.push(values[i]);
        assert(idx@.subrange(0, k + 1) =~= idx@.subrange(0, k as int).push(i));
        k = k + 1;
        assert(r@ =~= gather(idx@.subrange(0, k as int), values@));
    }
    assert(idx@.subrange(0, idx@.len() as int) =~= idx@);
    r
}

/// Number of true values of `inputs`.
pub fn count_true_exec(inputs: &[bool]) -> (r: u32)
    requires
        inputs@.len() <= u32::MAX,
    ensures
        r == count_true(inputs@),
{
    let mut c: u32 = 0;
    let mut i: usize = 0;
    while i < inputs.len()
        invariant
            i <= inputs@.len(),
            inputs@.len() <= u32::MAX,
            c == count_true(inputs@.subrange(0, i as int)),
            c <= i,
        decreases inputs.len() - i,
    {
        assert(inputs@.subrange(0, i + 1).drop_last() =~= inputs@.subrange(0, i as int));
        if inputs[i] {
            c = c + 1;
        }
        i = i + 1;
    }
    assert(inputs@.subrange(0, inputs@.len() as int) =~= inputs@);
    c
}

/// A logic node of the circuit.
pub struct Node {
    pub node_type: NodeType,
    pub num_inputs: usize,
    pub input_indexes: Vec<usize>,
    pub output: bool,
    pub index: usize,
}

impl Node {
    /// A node of kind `node_type` with no wired inputs yet.
    pub fn new_typed(node_type: NodeType) -> (r: Node)
        ensures
            r.node_type == node_type,
            r.num_inputs == default_arity(node_type),
            r.input_indexes@.len() == 0,
            !r.output,
            r.index == 0,
    {
        let num_inputs: usize = match node_type {
            NodeType::Not => 1,
            _ => 2,
        };
        Node { node_type, num_inputs, input_indexes: Vec::new(), output: false, index: 0 }
    }

    /// Wires one more input; the arity becomes the number of wired inputs.
    pub fn add_input_node(&mut self, index: usize)
        ensures
            final(self).input_indexes@ == old(self).input_indexes@.push(index),
            final(self).num_inputs == final(self).input_indexes@.len(),
            final(self).node_type == old(self).node_type,
            final(self).output == old(self).output,
            final(self).index == old(self).index,
    {
        self.input_indexes.push(index);
        self.num_inputs = self.input_indexes.len();
    }

    /// Evaluates this node on `inputs`.
    pub fn process(&self, inputs: &[bool]) -> (r: bool)
        requires
            inputs@.len() == self.num_inputs,
            can_process(self.node_type, inputs@.len() as nat),
        ensures
            r == gate_value(self.node_type, inputs@),
    {
        match self.node_type {
            NodeType::Not => !inputs[0],
            NodeType::And => inputs[0] && inputs[1],
            NodeType::Or => inputs[0] || inputs[1],
            NodeType::Xor => (inputs[0] || inputs[1]) && !(inputs[0] && inputs[1]),
            NodeType::Nand => !(inputs[0] && inputs[1]),
            NodeType::Nor => !(inputs[0] || inputs[1]),
            NodeType::Xnor => !(inputs[0] || inputs[1]) || (inputs[0] && inputs[1]),
            NodeType::Input => false,
        }
    }

    /// Recomputes the output from the values `outputs` of the nodes before it.
    pub fn update(&mut self, outputs: &[bool])
        requires
            old(self).num_inputs == old(self).input_indexes@.len(),
            can_process(old(self).node_type, old(self).num_inputs as nat),
            indexes_below(old(self).input_indexes@, outputs@.len() as int),
        ensures
            final(self).output == gate_value(
                old(self).node_type,
                gather(old(self).input_indexes@, outputs@),
            ),
            final(self).node_type == old(self).node_type,
            final(self).num_inputs == old(self).num_inputs,
            final(self).input_indexes@ == old(self).input_indexes@,
            final(self).index == old(self).index,
    {
        let inputs = gather_exec(&self.input_indexes, outputs);
        self.output = self.process(inputs.as_slice());
    }

    /// The recipe name of this node's kind.
    pub fn name(&self) -> (r: String)
        ensures
            r@ == kind_name(self.node_type),
    {
        kind_name_of(self.node_type)
    }
}

/// The recipe name of kind `t`.
pub fn kind_name_of(t: NodeType) -> (r: String)
    ensures
        r@ == kind_name(t),
{
    match t {
        NodeType::Not => String::from_str("NODE_NOT"),
        NodeType::And => String::from_str("NODE_AND"),
        NodeType::Or => String::from_str("NODE_OR"),
        NodeType::Xor => String::from_str("NODE_XOR"),
        NodeType::Nand => String::from_str("NODE_NAND"),
        NodeType::Nor => String::from_str("NODE_NOR"),
        NodeType::Xnor => String::from_str("NODE_XNOR"),
        NodeType::Input => String::from_str("NODE_INPUT"),
    }
}

/// An output counter: its value is the number of true inputs.
pub struct NodeOutput {
    pub num_inputs: usize,
    pub input_indexes: Vec<usize>,
    pub output: u32,
}

impl NodeOutput {
    /// An output counter with no inputs.
    pub fn new() -> (r: NodeOutput)
        ensures
            r.num_inputs == 0,
            r.input_indexes@.len() == 0,
            r.output == 0,
    {
        NodeOutput { num_inputs: 0, input_indexes: Vec::new(), output: 0 }
    }

    /// Wires one more input.
    pub fn add_input_node(&mut self, index: usize)
        ensures
            final(self).input_indexes@ == old(self).input_indexes@.push(index),
            final(self).num_inputs == final(self).input_indexes@.len(),
            final(self).output == old(self).output,
    {
        self.input_indexes.push(index);
        self.num_inputs = self.input_indexes.len();
    }

    /// Counts the true values of `inputs`.
    pub fn process(&self, inputs: &[bool]) -> (r: u32)
        requires
            inputs@.len() == self.num_inputs,
            inputs@.len() <= u32::MAX,
        ensures
            r == count_true(inputs@),
    {
        count_true_exec(inputs)
    }

    /// Recomputes the count from the node values `outputs`.
    pub fn update(&mut self, outputs: &[bool])
        requires
            old(self).num_inputs == old(self).input_indexes@.len(),
            old(self).num_inputs <= u32::MAX,
            indexes_below(old(self).input_indexes@, outputs@.len() as int),
        ensures
            final(self).output == count_true(gather(old(self).input_indexes@, outputs@)),
            final(self).num_inputs == old(self).num_inputs,
            final(self).input_indexes@ == old(self).input_indexes@,
    {
        let inputs = gather_exec(&self.input_indexes, outputs);
        self.output = self.process(inputs.as_slice());
    }

    /// The recipe name of an output counter.
    pub fn name(&self) -> (r: String)
        ensures
            r@ == output_name(),
    {
        String::from_str("NODE_OUTPUT")
    }
}

/// The kind whose recipe name is `name`, if any (an output counter is no
/// node kind).
pub fn node_type_of_name(name: &[char]) -> (r: Option<NodeType>)
    ensures
        r.is_some() ==> kind_name(r.unwrap()) == name@,
        r.is_none() ==> forall|t: NodeType| kind_name(t) != name@,
{
    let kinds: [NodeType; 8] = [
        NodeType::Input,
        NodeType::Not,
        NodeType::And,
        NodeType::Or,
        NodeType::Xor,
        NodeType::Nand,
        NodeType::Nor,
        NodeType::Xnor,
    ];
    let mut k: usize = 0;
    while k < 8
        invariant
            k <= 8,
            kinds@ == seq![
                NodeType::Input,
                NodeType::Not,
                NodeType::And,
                NodeType::Or,
                NodeType::Xor,
                NodeType::Nand,
                NodeType::Nor,
                NodeType::Xnor,
            ],
            forall|j: int| 0 <= j < k ==> kind_name(#[trigger] kinds@[j]) != name@,
        decreases 8 - k,
    {
        let t = kinds[k];
        let tn = kind_name_of(t);
        let tc = crate::text::chars_of(tn.as_str());
        if crate::text::chars_eq(tc.as_slice(), name) {
            return Some(t);
        }
        k = k + 1;
    }
    assert forall|t: NodeType| kind_name(t) != name@ by {
        match t {
            NodeType::Input => assert(kinds@[0] == t),
            NodeType::Not => assert(kinds@[1] == t),
            NodeType::And => assert(kinds@[2] == t),
            NodeType::Or => assert(kinds@[3] == t),
            NodeType::Xor => assert(kinds@[4] == t),
            NodeType::Nand => assert(kinds@[5] == t),
            NodeType::Nor => assert(kinds@[6] == t),
            NodeType::Xnor => assert(kinds@[7] == t),
        }
    }
    None
}

/// Whether `name` is the recipe name of a node kind.
pub open spec fn is_node_name(name: Seq<char>) -> bool {
    exists|t: NodeType| kind_name(t) == name
}

/// A fresh node of the kind named `class_name`.
pub fn get_node_instance(class_name: &str) -> (r: Node)
    requires
        is_node_name(class_name@),
    ensures
        kind_name(r.node_type) == class_name@,
        r.num_inputs == default_arity(r.node_type),
        r.input_indexes@.len() == 0,
        !r.output,
        r.index == 0,
{
    let name = crate::text::chars_of(class_name);
    match node_type_of_name(name.as_slice()) {
        Some(t) => Node::new_typed(t),
        None => {
            proof {
                let t = choose|t: NodeType| kind_name(t) == class_name@;
                assert(kind_name(t) == name@);
            }
            Node::new_typed(NodeType::Input)
        },
    }
}

} // verus!
