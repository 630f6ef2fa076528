//! The circuit genome: a graph of logic gates, each reading only earlier
//! nodes, and a layer of output counters that rank the moves.
use vstd::prelude::*;
use crate::game::GameInfo;
use crate::nodes::{
    can_process, count_true, count_true_exec, default_arity, gate_value, gather, gather_exec,
    indexes_below, Node, NodeOutput, NodeType,
};
use crate::player::GamePlayer;
use crate::rng::{choose_multiple, random_below, random_bool};

verus! {

/// Number of gates a fresh genome gets after its input nodes.
pub const NUM_GATES: usize = 100;

/// Number of node references of each fresh output counter.
pub const OUTPUT_FAN_IN: usize = 20;

/// The value of node `n`, given the values `prev` of the nodes before it.
/// A gate that is not wired for its kind evaluates to false.
pub open spec fn node_value(n: Node, prev: Seq<bool>) -> bool {
    if n.input_indexes@.len() == n.num_inputs && can_process(n.node_type, n.num_inputs as nat)
        && indexes_below(n.input_indexes@, prev.len() as int) {
        gate_value(n.node_type, gather(n.input_indexes@, prev))
    } else {
        false
    }
}

/// The values of the first `n` positions: the inputs first, then each
/// further node evaluated on the values before it.
pub open spec fn eval_prefix(nodes: Seq<Node>, inputs: Seq<bool>, n: nat) -> Seq<bool>
    decreases n,
{
    if n == 0 {
        Seq::empty()
    } else {
        let prev = eval_prefix(nodes, inputs, (n - 1) as nat);
        if n - 1 < inputs.len() {
            prev.push(inputs[n - 1])
        } else {
            prev.push(node_value(nodes[n - 1], prev))
        }
    }
}

/// The values of every node and input.
pub open spec fn all_values(nodes: Seq<Node>, inputs: Seq<bool>) -> Seq<bool> {
    eval_prefix(nodes, inputs, if inputs.len() >= nodes.len() { inputs.len() } else { nodes.len() })
}

/// The count of an output counter over node values `vals`.
pub open spec fn output_value(o: NodeOutput, vals: Seq<bool>) -> nat {
    if indexes_below(o.input_indexes@, vals.len() as int) && o.input_indexes@.len() <= u32::MAX {
        count_true(gather(o.input_indexes@, vals))
    } else {
        0
    }
}

/// The counts of all output counters.
pub open spec fn output_values(outs: Seq<NodeOutput>, vals: Seq<bool>) -> Seq<u32> {
    Seq::new(outs.len(), |j: int| output_value(outs[j], vals) as u32)
}

/// The rank of move `m`: its counter's value, 0 without a counter.
pub open spec fn rank(outs: Seq<u32>, m: u32) -> u32 {
    if (m as int) < outs.len() { outs[m as int] } else { 0 }
}

/// The best of the first `k` moves and its rank: a move replaces the best
/// with a higher rank, or with an equal rank and a lower move index,
/// starting from `moves[0]`, 0.
pub open spec fn pick(moves: Seq<u32>, outs: Seq<u32>, k: int) -> (u32, u32)
    decreases k,
{
    if k <= 0 {
        (moves[0], 0)
    } else {
        let (b, o) = pick(moves, outs, k - 1);
        let m = moves[k - 1];
        let r = rank(outs, m);
        if r > o || (r == o && m < b) { (m, r) } else { (b, o) }
    }
}

/// The move the circuit `nodes`, `outs` picks on `inputs` among `moves`.
pub open spec fn decision(nodes: Seq<Node>, outs: Seq<NodeOutput>, inputs: Seq<bool>, moves: Seq<u32>) -> u32 {
    pick(moves, output_values(outs, all_values(nodes, inputs)), moves.len() as int).0
}

/// The picked move is one of the moves.
pub proof fn lemma_pick_in(moves: Seq<u32>, outs: Seq<u32>, k: int)
    requires
        moves.len() > 0,
        0 <= k <= moves.len(),
    ensures
        moves.contains(pick(moves, outs, k).0),
    decreases k,
{
    if k <= 0 {
        assert(moves[0] == pick(moves, outs, k).0);
    } else {
        lemma_pick_in(moves, outs, k - 1);
        assert(moves[k - 1] == moves[k - 1]);
    }
}

/// After at least one move, the picked move has the highest rank among
/// the moves seen, and the lowest index among those of that rank.
pub proof fn lemma_pick_best(moves: Seq<u32>, outs: Seq<u32>, k: int)
    requires
        1 <= k <= moves.len(),
    ensures
        pick(moves, outs, k).1 == rank(outs, pick(moves, outs, k).0),
        forall|j: int| 0 <= j < k ==> rank(outs, #[trigger] moves[j]) < pick(moves, outs, k).1
            || (rank(outs, moves[j]) == pick(moves, outs, k).1 && pick(moves, outs, k).0 <= moves[j]),
    decreases k,
{
    if k > 1 {
        lemma_pick_best(moves, outs, k - 1);
    } else {
        assert(pick(moves, outs, 0) == (moves[0], 0u32));
        assert(rank(outs, moves[0]) >= 0);
    }
}

proof fn lemma_eval_prefix_len(nodes: Seq<Node>, inputs: Seq<bool>, n: nat)
    ensures
        eval_prefix(nodes, inputs, n).len() == n,
    decreases n,
{
    if n > 0 {
        lemma_eval_prefix_len(nodes, inputs, (n - 1) as nat);
    }
}

proof fn lemma_eval_prefix_inputs(nodes: Seq<Node>, inputs: Seq<bool>, n: nat)
    requires
        n <= inputs.len(),
    ensures
        eval_prefix(nodes, inputs, n) == inputs.subrange(0, n as int),
    decreases n,
{
    if n > 0 {
        lemma_eval_prefix_inputs(nodes, inputs, (n - 1) as nat);
        assert(inputs.subrange(0, n as int) =~= inputs.subrange(0, n - 1).push(inputs[n - 1]));
    } else {
        assert(inputs.subrange(0, 0) =~= Seq::<bool>::empty());
    }
}

/// Whether node `i` of `nodes` knows its position, reads only earlier
/// nodes, and, as an input node, reads none.
pub open spec fn node_ok(nodes: Seq<Node>, i: int) -> bool {
    &&& nodes[i].index == i
    &&& indexes_below(nodes[i].input_indexes@, i)
    &&& nodes[i].node_type == NodeType::Input ==> nodes[i].input_indexes@.len() == 0
}

/// The circuit invariant: no node reads itself or a later node, and every
/// output counter reads existing nodes.
pub open spec fn circuit_ok(nodes: Seq<Node>, outs: Seq<NodeOutput>) -> bool {
    &&& forall|i: int| 0 <= i < nodes.len() ==> #[trigger] node_ok(nodes, i)
    &&& forall|j: int| 0 <= j < outs.len() ==> indexes_below(#[trigger] outs[j].input_indexes@, nodes.len() as int)
}

/// Whether every index of `idx` is below `n`.
fn all_below(idx: &Vec<usize>, n: usize) -> (r: bool)
    ensures
        r == indexes_below(idx@, n as int),
{
    let mut k: usize = 0;
    while k < idx.len()
        invariant
            k <= idx@.len(),
            forall|j: int| 0 <= j < k ==> #[trigger] idx@[j] < n,
        decreases idx.len() - k,
    {
        if idx[k] >= n {
            return false;
        }
        k = k + 1;
    }
    true
}

/// `node_value` on machine values.
fn node_value_exec(n: &Node, prev: &Vec<bool>) -> (r: bool)
    ensures
        r == node_value(*n, prev@),
{
    if n.node_type != NodeType::Input && n.input_indexes.len() == n.num_inputs
        && n.num_inputs >= (if n.node_type == NodeType::Not { 1usize } else { 2usize })
        && all_below(&n.input_indexes, prev.len()) {
        let inputs = gather_exec(&n.input_indexes, prev);
        n.process(inputs.as_slice())
    } else {
        false
    }
}

/// A copy of an output counter.
pub fn copy_output(o: &NodeOutput) -> (r: NodeOutput)
    ensures
        r.num_inputs == o.num_inputs,
        r.input_indexes@ == o.input_indexes@,
        r.output == o.output,
{
    NodeOutput { num_inputs: o.num_inputs, input_indexes: o.input_indexes.clone(), output: o.output }
}

/// The logic kinds a fresh or mutated node is drawn from.
pub open spec fn gate_kind(k: int) -> NodeType {
    if k == 0 { NodeType::Not }
    else if k == 1 { NodeType::And }
    else if k == 2 { NodeType::Or }
    else if k == 3 { NodeType::Xor }
    else if k == 4 { NodeType::Nand }
    else if k == 5 { NodeType::Nor }
    else { NodeType::Xnor }
}

/// Logic kind number `k` of the pool.
pub fn gate_kind_exec(k: usize) -> (r: NodeType)
    requires
        k < 7,
    ensures
        r == gate_kind(k as int),
        r != NodeType::Input,
{
    if k == 0 { NodeType::Not }
    else if k == 1 { NodeType::And }
    else if k == 2 { NodeType::Or }
    else if k == 3 { NodeType::Xor }
    else if k == 4 { NodeType::Nand }
    else if k == 5 { NodeType::Nor }
    else { NodeType::Xnor }
}

/// A fresh unwired node of a logic kind drawn at random.
pub fn get_random_node_instance() -> (r: Node)
    ensures
        r.node_type != NodeType::Input,
        r.num_inputs == default_arity(r.node_type),
        r.input_indexes@.len() == 0,
        r.index == 0,
{
    Node::new_typed(gate_kind_exec(random_below(7)))
}

/// `0..n` in order.
pub fn index_range(n: usize) -> (r: Vec<usize>)
    ensures
        r@ == Seq::new(n as nat, |i: int| i as usize),
        r@.no_duplicates(),
{
    let mut r: Vec<usize> = Vec::new();
    let mut i: usize = 0;
    while i < n
        invariant
            i <= n,
            r@ == Seq::new(i as nat, |k: int| k as usize),
        decreases n - i,
    {
        r.push(i);
        i = i + 1;
        assert(r@ =~= Seq::new(i as nat, |k: int| k as usize));
    }
    r
}

/// The circuit genome.
pub struct GenBot3 {
    nodes: Vec<Node>,
    output_nodes: Vec<NodeOutput>,
}

impl GenBot3 {
    /// The nodes, in index order.
    pub closed spec fn node_seq(&self) -> Seq<Node> {
        self.nodes@
    }

    /// The output counters.
    pub closed spec fn output_seq(&self) -> Seq<NodeOutput> {
        self.output_nodes@
    }

    /// The circuit invariant.
    pub open spec fn wf(&self) -> bool {
        circuit_ok(self.node_seq(), self.output_seq())
    }

    /// The empty genome: no nodes, no outputs.
    pub fn empty() -> (r: GenBot3)
        ensures
            r.wf(),
            r.node_seq().len() == 0,
            r.output_seq().len() == 0,
    {
        GenBot3 { nodes: Vec::new(), output_nodes: Vec::new() }
    }

    /// A genome built from its parts, if they satisfy the circuit invariant.
    pub fn from_parts(nodes: Vec<Node>, output_nodes: Vec<NodeOutput>) -> (r: Option<GenBot3>)
        ensures
            r.is_some() == circuit_ok(nodes@, output_nodes@),
            r.is_some() ==> r.unwrap().node_seq() == nodes@ && r.unwrap().output_seq() == output_nodes@,
    {
        let mut i: usize = 0;
        while i < nodes.len()
            invariant
                i <= nodes@.len(),
                forall|k: int| 0 <= k < i ==> #[trigger] node_ok(nodes@, k),
            decreases nodes.len() - i,
        {
            let n = &nodes[i];
            if n.index != i {
                assert(!node_ok(nodes@, i as int));
                return None;
            }
            if !all_below(&n.input_indexes, i) {
                assert(!node_ok(nodes@, i as int));
                return None;
            }
            if n.node_type == NodeType::Input && n.input_indexes.len() != 0 {
                assert(!node_ok(nodes@, i as int));
                return None;
            }
            i = i + 1;
        }
        let mut j: usize = 0;
        while j < output_nodes.len()
            invariant
                j <= output_nodes@.len(),
                forall|k: int| 0 <= k < nodes@.len() ==> #[trigger] node_ok(nodes@, k),
                forall|k: int| 0 <= k < j ==> indexes_below(#[trigger] output_nodes@[k].input_indexes@, nodes@.len() as int),
            decreases output_nodes.len() - j,
        {
            if !all_below(&output_nodes[j].input_indexes, nodes.len()) {
                return None;
            }
            j = j + 1;
        }
        Some(GenBot3 { nodes, output_nodes })
    }

    /// Number of nodes.
    pub fn node_count(&self) -> (r: usize)
        ensures
            r == self.node_seq().len(),
    {
        self.nodes.len()
    }

    /// Number of output counters.
    pub fn output_count(&self) -> (r: usize)
        ensures
            r == self.output_seq().len(),
    {
        self.output_nodes.len()
    }

    /// Node `i`.
    pub fn node(&self, i: usize) -> (r: &Node)
        requires
            i < self.node_seq().len(),
        ensures
            *r == self.node_seq()[i as int],
    {
        &self.nodes[i]
    }

    /// Output counter `j`.
    pub fn output_node(&self, j: usize) -> (r: &NodeOutput)
        requires
            j < self.output_seq().len(),
        ensures
            *r == self.output_seq()[j as int],
    {
        &self.output_nodes[j]
    }

    /// The values of all inputs and nodes.
    pub fn node_values(&self, inputs: &Vec<bool>) -> (r: Vec<bool>)
        ensures
            r@ == all_values(self.node_seq(), inputs@),
    {
        let mut outputs: Vec<bool> = inputs.clone();
        proof {
            lemma_eval_prefix_inputs(self.nodes@, inputs@, inputs@.len());
            assert(inputs@.subrange(0, inputs@.len() as int) =~= inputs@);
        }
        let mut index: usize = inputs.len();
        while index < self.nodes.len()
            invariant
                inputs@.len() <= index,
                index == inputs@.len() || index <= self.nodes@.len(),
                outputs@ == eval_prefix(self.nodes@, inputs@, index as nat),
            decreases self.nodes.len() - index,
        {
            proof {
                lemma_eval_prefix_len(self.nodes@, inputs@, index as nat);
            }
            let v = node_value_exec(&self.nodes[index], &outputs);
            outputs.push(v);
            index = index + 1;
        }
        outputs
    }

    /// The counts of all output counters over node values `vals`.
    pub fn output_counts(&self, vals: &Vec<bool>) -> (r: Vec<u32>)
        ensures
            r@ == output_values(self.output_seq(), vals@),
    {
        let mut r: Vec<u32> = Vec::new();
        let mut j: usize = 0;
        while j < self.output_nodes.len()
            invariant
                j <= self.output_nodes@.len(),
                r@ == output_values(self.output_nodes@.subrange(0, j as int), vals@),
            decreases self.output_nodes.len() - j,
        {
            let o = &self.output_nodes[j];
            let c: u32 = if all_below(&o.input_indexes, vals.len()) && o.input_indexes.len() <= 0xffff_ffffusize {
                let ins = gather_exec(&o.input_indexes, vals.as_slice());
                count_true_exec(&ins)
            } else {
                0
            };
            r.push(c);
            j = j + 1;
            assert(r@ =~= output_values(self.output_nodes@.subrange(0, j as int), vals@));
        }
        assert(self.output_nodes@.subrange(0, self.output_nodes@.len() as int) =~= self.output_nodes@);
        r
    }

    /// The move the circuit picks: the legal move whose counter is highest,
    /// ties going to the lowest move index.
    pub fn decide(&self, inputs: &Vec<bool>, available_moves: &Vec<u32>) -> (r: u32)
        requires
            available_moves@.len() > 0,
        ensures
            r == decision(self.node_seq(), self.output_seq(), inputs@, available_moves@),
            available_moves@.contains(r),
            ({
                let outs = output_values(self.output_seq(), all_values(self.node_seq(), inputs@));
                forall|j: int| 0 <= j < available_moves@.len() ==>
                    rank(outs, #[trigger] available_moves@[j]) < rank(outs, r)
                    || (rank(outs, available_moves@[j]) == rank(outs, r) && r <= available_moves@[j])
            }),
    {
        let vals = self.node_values(inputs);
        let outs = self.output_counts(&vals);
        let mut best_move = available_moves[0];
        let mut best_output: u32 = 0;
        let mut k: usize = 0;
        while k < available_moves.len()
            invariant
                available_moves@.len() > 0,
                k <= available_moves@.len(),
                (best_move, best_output) == pick(available_moves@, outs@, k as int),
            decreases available_moves.len() - k,
        {
            let m = available_moves[k];
            let r: u32 = if (m as usize) < outs.len() { outs[m as usize] } else { 0 };
            if r > best_output || (r == best_output && m < best_move) {
                best_move = m;
                best_output = r;
            }
            k = k + 1;
        }
        proof {
            lemma_pick_in(available_moves@, outs@, available_moves@.len() as int);
            lemma_pick_best(available_moves@, outs@, available_moves@.len() as int);
        }
        best_move
    }
}

/// A fresh gate at position `i`: a logic kind reading distinct earlier
/// nodes, as many as its kind asks for or as there are.
pub open spec fn fresh_gate(n: Node, i: int) -> bool {
    &&& n.node_type != NodeType::Input
    &&& n.index == i
    &&& n.input_indexes@.no_duplicates()
    &&& indexes_below(n.input_indexes@, i)
    &&& n.input_indexes@.len() == if default_arity(n.node_type) < i { default_arity(n.node_type) as int } else { i }
    &&& n.input_indexes@.len() > 0 ==> n.num_inputs == n.input_indexes@.len()
}

/// A fresh output counter over `n` nodes: `OUTPUT_FAN_IN` distinct nodes,
/// or all of them when there are fewer.
pub open spec fn fresh_counter(o: NodeOutput, n: int) -> bool {
    &&& o.input_indexes@.no_duplicates()
    &&& indexes_below(o.input_indexes@, n)
    &&& o.input_indexes@.len() == if (OUTPUT_FAN_IN as int) < n { OUTPUT_FAN_IN as int } else { n }
    &&& o.input_indexes@.len() > 0 ==> o.num_inputs == o.input_indexes@.len()
}

/// Whether node `v` is a wired logic node.
pub open spec fn wired_gate(nodes: Seq<Node>, v: int) -> bool {
    0 <= v < nodes.len() && nodes[v].node_type != NodeType::Input && nodes[v].input_indexes@.len() > 0
}

/// Whether reference `slot` of counter `j` may move to `v`: a wired gate
/// the counter does not read yet.
pub open spec fn output_draw_ok(nodes: Seq<Node>, outs: Seq<NodeOutput>, j: int, slot: int, v: usize) -> bool {
    &&& 0 <= j < outs.len()
    &&& 0 <= slot < outs[j].input_indexes@.len()
    &&& wired_gate(nodes, v as int)
    &&& !outs[j].input_indexes@.contains(v)
}

/// Whether counter `j` cannot be mutated: it reads nothing, or it already
/// reads every wired gate.
pub open spec fn counter_stuck(nodes: Seq<Node>, outs: Seq<NodeOutput>, j: int) -> bool {
    outs[j].input_indexes@.len() == 0
        || forall|v: usize| #[trigger] wired_gate(nodes, v as int) ==> outs[j].input_indexes@.contains(v)
}

/// Whether an output mutation can find nothing to change for some counter
/// it may draw.
pub open spec fn no_output_site(nodes: Seq<Node>, outs: Seq<NodeOutput>) -> bool {
    outs.len() == 0 || exists|j: int| 0 <= j < outs.len() && #[trigger] counter_stuck(nodes, outs, j)
}

/// The new counters are the old ones with reference `slot` of counter `j`
/// pointing at `v`; the nodes are unchanged.
pub open spec fn retargeted(
    old_nodes: Seq<Node>,
    old_outs: Seq<NodeOutput>,
    new_nodes: Seq<Node>,
    new_outs: Seq<NodeOutput>,
    j: int,
    slot: int,
    v: usize,
) -> bool {
    &&& new_nodes == old_nodes
    &&& new_outs.len() == old_outs.len()
    &&& forall|k: int| 0 <= k < old_outs.len() && k != j ==> #[trigger] new_outs[k] == old_outs[k]
    &&& new_outs[j].input_indexes@ == old_outs[j].input_indexes@.update(slot, v)
    &&& new_outs[j].num_inputs == old_outs[j].num_inputs
    &&& new_outs[j].output == old_outs[j].output
}

/// The number of inputs a rewired node asks for: its new kind's, else its own.
pub open spec fn wanted(o: Node, kind: Option<NodeType>) -> int {
    match kind {
        Some(k) => default_arity(k) as int,
        None => o.num_inputs as int,
    }
}

/// Whether node `i` may be rewired to kind `kind` (if given) and inputs
/// `picks`: a wired gate, a kind that fits its position, and distinct
/// earlier nodes, as many as it asks for or as there are.
pub open spec fn rewire_draw_ok(nodes: Seq<Node>, i: int, kind: Option<NodeType>, picks: Seq<usize>) -> bool {
    &&& wired_gate(nodes, i)
    &&& kind.is_some() ==> kind.unwrap() != NodeType::Input && default_arity(kind.unwrap()) <= i
    &&& picks.no_duplicates()
    &&& indexes_below(picks, i)
    &&& picks.len() == if wanted(nodes[i], kind) < i { wanted(nodes[i], kind) } else { i }
}

/// The new nodes are the old ones with node `i` of kind `kind` (if given)
/// reading `picks`; everything else is unchanged.
pub open spec fn rewired(
    old_nodes: Seq<Node>,
    old_outs: Seq<NodeOutput>,
    new_nodes: Seq<Node>,
    new_outs: Seq<NodeOutput>,
    i: int,
    kind: Option<NodeType>,
    picks: Seq<usize>,
) -> bool {
    &&& new_outs == old_outs
    &&& new_nodes.len() == old_nodes.len()
    &&& forall|k: int| 0 <= k < old_nodes.len() && k != i ==> #[trigger] new_nodes[k] == old_nodes[k]
    &&& new_nodes[i].node_type == (match kind { Some(k) => k, None => old_nodes[i].node_type })
    &&& new_nodes[i].input_indexes@ == picks
    &&& new_nodes[i].num_inputs == if picks.len() > 0 { picks.len() as int } else { wanted(old_nodes[i], kind) }
    &&& new_nodes[i].index == i
    &&& new_nodes[i].output == (match kind { Some(k) => false, None => old_nodes[i].output })
}

/// Whether circuit `nn`, `no` is a mutation of circuit `on`, `oo`: one
/// output reference moved, or one wired gate rewired, everything else as
/// it was; or nothing changed because the drawn kind of site has no
/// valid change.
pub open spec fn mutation_of(on: Seq<Node>, oo: Seq<NodeOutput>, nn: Seq<Node>, no: Seq<NodeOutput>) -> bool {
    (exists|j: int, slot: int, v: usize|
        output_draw_ok(on, oo, j, slot, v) && #[trigger] retargeted(on, oo, nn, no, j, slot, v))
    || (exists|i: int, kind: Option<NodeType>, picks: Seq<usize>|
        rewire_draw_ok(on, i, kind, picks) && #[trigger] rewired(on, oo, nn, no, i, kind, picks))
    || (nn == on && no == oo && (no_output_site(on, oo) || forall|v: int| !#[trigger] wired_gate(on, v)))
}

/// A mutation keeps the number of nodes and counters, each counter's
/// number of references, and every input node as it was.
pub proof fn lemma_mutation_shape(on: Seq<Node>, oo: Seq<NodeOutput>, nn: Seq<Node>, no: Seq<NodeOutput>)
    requires
        mutation_of(on, oo, nn, no),
    ensures
        nn.len() == on.len(),
        no.len() == oo.len(),
        forall|j: int| 0 <= j < oo.len() ==> (#[trigger] no[j]).input_indexes@.len() == oo[j].input_indexes@.len(),
        forall|i: int| 0 <= i < on.len() && on[i].node_type == NodeType::Input ==> #[trigger] nn[i] == on[i],
{
    if exists|j: int, slot: int, v: usize| output_draw_ok(on, oo, j, slot, v) && #[trigger] retargeted(on, oo, nn, no, j, slot, v) {
        let (j, slot, v) = choose|j: int, slot: int, v: usize| output_draw_ok(on, oo, j, slot, v) && #[trigger] retargeted(on, oo, nn, no, j, slot, v);
        assert forall|k: int| 0 <= k < oo.len() implies (#[trigger] no[k]).input_indexes@.len() == oo[k].input_indexes@.len() by {
            if k != j {
                assert(no[k] == oo[k]);
            }
        }
    } else if exists|i: int, kind: Option<NodeType>, picks: Seq<usize>| rewire_draw_ok(on, i, kind, picks) && #[trigger] rewired(on, oo, nn, no, i, kind, picks) {
        let (i, kind, picks) = choose|i: int, kind: Option<NodeType>, picks: Seq<usize>| rewire_draw_ok(on, i, kind, picks) && #[trigger] rewired(on, oo, nn, no, i, kind, picks);
        assert forall|k: int| 0 <= k < on.len() && on[k].node_type == NodeType::Input implies #[trigger] nn[k] == on[k] by {
            if k == i {
                assert(wired_gate(on, i));
            }
        }
    }
}

/// Whether `x` occurs in `v`.
fn contains_index(v: &Vec<usize>, x: usize) -> (r: bool)
    ensures
        r == v@.contains(x),
{
    let mut k: usize = 0;
    while k < v.len()
        invariant
            k <= v@.len(),
            forall|j: int| 0 <= j < k ==> #[trigger] v@[j] != x,
        decreases v.len() - k,
    {
        if v[k] == x {
            assert(v@[k as int] == x);
            return true;
        }
        k = k + 1;
    }
    false
}

/// Wires `picks` into `node`, in order.
fn wire(node: &mut Node, picks: &Vec<usize>)
    ensures
        final(node).input_indexes@ == old(node).input_indexes@ + picks@,
        final(node).node_type == old(node).node_type,
        final(node).index == old(node).index,
        final(node).output == old(node).output,
        picks@.len() > 0 ==> final(node).num_inputs == final(node).input_indexes@.len(),
        picks@.len() == 0 ==> final(node).num_inputs == old(node).num_inputs,
{
    let mut k: usize = 0;
    while k < picks.len()
        invariant
            k <= picks@.len(),
            node.input_indexes@ == old(node).input_indexes@ + picks@.subrange(0, k as int),
            node.node_type == old(node).node_type,
            node.index == old(node).index,
            node.output == old(node).output,
            k > 0 ==> node.num_inputs == node.input_indexes@.len(),
            k == 0 ==> node.num_inputs == old(node).num_inputs,
        decreases picks.len() - k,
    {
        node.add_input_node(picks[k]);
        k = k + 1;
        assert(node.input_indexes@ =~= old(node).input_indexes@ + picks@.subrange(0, k as int));
    }
    assert(picks@.subrange(0, picks@.len() as int) =~= picks@);
}

/// Wires `picks` into `out`, in order.
fn wire_output(out: &mut NodeOutput, picks: &Vec<usize>)
    ensures
        final(out).input_indexes@ == old(out).input_indexes@ + picks@,
        picks@.len() > 0 ==> final(out).num_inputs == final(out).input_indexes@.len(),
        picks@.len() == 0 ==> final(out).num_inputs == old(out).num_inputs,
{
    let mut k: usize = 0;
    while k < picks.len()
        invariant
            k <= picks@.len(),
            out.input_indexes@ == old(out).input_indexes@ + picks@.subrange(0, k as int),
            k > 0 ==> out.num_inputs == out.input_indexes@.len(),
            k == 0 ==> out.num_inputs == old(out).num_inputs,
        decreases picks.len() - k,
    {
        out.add_input_node(picks[k]);
        k = k + 1;
        assert(out.input_indexes@ =~= old(out).input_indexes@ + picks@.subrange(0, k as int));
    }
    assert(picks@.subrange(0, picks@.len() as int) =~= picks@);
}

impl GenBot3 {
    /// A fresh genome for a game: one input node per input, `NUM_GATES`
    /// random gates each reading random earlier nodes, and one counter per
    /// move reading `OUTPUT_FAN_IN` random nodes.
    pub fn new(game_info: &GameInfo) -> (r: GenBot3)
        ensures
            r.wf(),
            r.node_seq().len() == game_info.input_count + NUM_GATES,
            r.output_seq().len() == game_info.output_count,
            forall|i: int| 0 <= i < game_info.input_count ==> (#[trigger] r.node_seq()[i]).node_type == NodeType::Input
                && r.node_seq()[i].index == i,
            forall|i: int| game_info.input_count <= i < r.node_seq().len() ==> fresh_gate(#[trigger] r.node_seq()[i], i),
            forall|j: int| 0 <= j < r.output_seq().len() ==> fresh_counter(#[trigger] r.output_seq()[j], r.node_seq().len() as int),
    {
        let mut nodes: Vec<Node> = Vec::new();
        let n_in = game_info.input_count as usize;
        let mut n: usize = 0;
        while n < n_in
            invariant
                n <= n_in,
                n_in == game_info.input_count,
                nodes@.len() == n,
                forall|i: int| 0 <= i < nodes@.len() ==> #[trigger] node_ok(nodes@, i),
                forall|i: int| 0 <= i < n ==> (#[trigger] nodes@[i]).node_type == NodeType::Input && nodes@[i].index == i,
            decreases n_in - n,
        {
            let mut inst = Node::new_typed(NodeType::Input);
            inst.index = n;
            let ghost before = nodes@;
            nodes.push(inst);
            assert forall|i: int| 0 <= i < nodes@.len() implies #[trigger] node_ok(nodes@, i) by {
                if i < n {
                    assert(node_ok(before, i));
                    assert(before[i] == nodes@[i]);
                }
            }
            n = n + 1;
        }
        let mut g: usize = 0;
        while g < NUM_GATES
            invariant
                g <= NUM_GATES,
                n_in == game_info.input_count,
                nodes@.len() == n_in + g,
                forall|i: int| 0 <= i < nodes@.len() ==> #[trigger] node_ok(nodes@, i),
                forall|i: int| 0 <= i < n_in ==> (#[trigger] nodes@[i]).node_type == NodeType::Input && nodes@[i].index == i,
                forall|i: int| n_in <= i < nodes@.len() ==> fresh_gate(#[trigger] nodes@[i], i),
            decreases NUM_GATES - g,
        {
            let mut inst = get_random_node_instance();
            inst.index = nodes.len();
            let pool = index_range(nodes.len());
            let picks = choose_multiple(&pool, inst.num_inputs);
            wire(&mut inst, &picks);
            assert forall|k: int| 0 <= k < inst.input_indexes@.len() implies #[trigger] inst.input_indexes@[k] < nodes@.len() by {
                assert(inst.input_indexes@[k] == picks@[k]);
                assert(pool@.contains(picks@[k]));
            }
            let ghost before = nodes@;
            nodes.push(inst);
            assert forall|i: int| 0 <= i < nodes@.len() implies #[trigger] node_ok(nodes@, i) by {
                if i < before.len() {
                    assert(node_ok(before, i));
                    assert(before[i] == nodes@[i]);
                }
            }
            assert forall|i: int| 0 <= i < n_in implies (#[trigger] nodes@[i]).node_type == NodeType::Input && nodes@[i].index == i by {
                assert(before[i] == nodes@[i]);
            }
            assert forall|i: int| n_in <= i < nodes@.len() implies fresh_gate(#[trigger] nodes@[i], i) by {
                if i < before.len() {
                    assert(before[i] == nodes@[i]);
                } else {
                    assert(inst.input_indexes@ =~= picks@);
                }
            }
            g = g + 1;
        }
        let mut outs: Vec<NodeOutput> = Vec::new();
        let n_out = game_info.output_count as usize;
        let mut o: usize = 0;
        while o < n_out
            invariant
                o <= n_out,
                n_out == game_info.output_count,
                outs@.len() == o,
                nodes@.len() == n_in + NUM_GATES,
                forall|j: int| 0 <= j < outs@.len() ==> indexes_below(#[trigger] outs@[j].input_indexes@, nodes@.len() as int),
                forall|j: int| 0 <= j < outs@.len() ==> fresh_counter(#[trigger] outs@[j], nodes@.len() as int),
            decreases n_out - o,
        {
            let mut out = NodeOutput::new();
            let pool = index_range(nodes.len());
            let picks = choose_multiple(&pool, OUTPUT_FAN_IN);
            wire_output(&mut out, &picks);
            assert forall|k: int| 0 <= k < out.input_indexes@.len() implies #[trigger] out.input_indexes@[k] < nodes@.len() by {
                assert(out.input_indexes@[k] == picks@[k]);
                assert(pool@.contains(picks@[k]));
            }
            assert(out.input_indexes@ =~= picks@);
            assert(fresh_counter(out, nodes@.len() as int));
            outs.push(out);
            o = o + 1;
        }
        GenBot3 { nodes, output_nodes: outs }
    }

    /// Makes gate `node_index` a fresh gate of kind `kind` when one is
    /// given, then sets its inputs to `picks`.
    pub fn rewire_node(&mut self, node_index: usize, kind: Option<NodeType>, picks: &Vec<usize>)
        requires
            old(self).wf(),
            node_index < old(self).node_seq().len(),
            old(self).node_seq()[node_index as int].node_type != NodeType::Input,
            kind.is_some() ==> kind.unwrap() != NodeType::Input,
            indexes_below(picks@, node_index as int),
        ensures
            final(self).wf(),
            final(self).output_seq() == old(self).output_seq(),
            final(self).node_seq().len() == old(self).node_seq().len(),
            forall|i: int| 0 <= i < old(self).node_seq().len() && i != node_index ==>
                #[trigger] final(self).node_seq()[i] == old(self).node_seq()[i],
            ({
                let n = final(self).node_seq()[node_index as int];
                let o = old(self).node_seq()[node_index as int];
                let base = match kind { Some(k) => default_arity(k) as int, None => o.num_inputs as int };
                &&& n.node_type == (match kind { Some(k) => k, None => o.node_type })
                &&& n.input_indexes@ == picks@
                &&& n.num_inputs == if picks@.len() > 0 { picks@.len() as int } else { base }
                &&& n.index == node_index
                &&& n.output == (match kind { Some(k) => false, None => o.output })
            }),
    {
        let old_node = &self.nodes[node_index];
        let mut fresh = match kind {
            Some(k) => Node::new_typed(k),
            None => Node {
                node_type: old_node.node_type,
                num_inputs: old_node.num_inputs,
                input_indexes: Vec::new(),
                output: old_node.output,
                index: 0,
            },
        };
        fresh.index = node_index;
        fresh.input_indexes = Vec::new();
        wire(&mut fresh, picks);
        assert(fresh.input_indexes@ =~= picks@);
        let ghost before = self.nodes@;
        self.nodes.set(node_index, fresh);
        assert forall|i: int| 0 <= i < self.nodes@.len() implies #[trigger] node_ok(self.nodes@, i) by {
            if i != node_index {
                assert(node_ok(before, i));
                assert(before[i] == self.nodes@[i]);
            }
        }
    }

    /// Points reference `slot` of output counter `out_index` at node `new_index`.
    pub fn set_output_input(&mut self, out_index: usize, slot: usize, new_index: usize)
        requires
            old(self).wf(),
            out_index < old(self).output_seq().len(),
            slot < old(self).output_seq()[out_index as int].input_indexes@.len(),
            new_index < old(self).node_seq().len(),
        ensures
            final(self).wf(),
            final(self).node_seq() == old(self).node_seq(),
            final(self).output_seq().len() == old(self).output_seq().len(),
            forall|j: int| 0 <= j < old(self).output_seq().len() && j != out_index ==>
                #[trigger] final(self).output_seq()[j] == old(self).output_seq()[j],
            final(self).output_seq()[out_index as int].input_indexes@
                == old(self).output_seq()[out_index as int].input_indexes@.update(slot as int, new_index),
            final(self).output_seq()[out_index as int].num_inputs == old(self).output_seq()[out_index as int].num_inputs,
            final(self).output_seq()[out_index as int].output == old(self).output_seq()[out_index as int].output,
    {
        let mut out = copy_output(&self.output_nodes[out_index]);
        out.input_indexes.set(slot, new_index);
        let ghost before = self.output_nodes@;
        self.output_nodes.set(out_index, out);
        assert forall|j: int| 0 <= j < self.output_nodes@.len() implies
            indexes_below(#[trigger] self.output_nodes@[j].input_indexes@, self.nodes@.len() as int) by {
            if j != out_index {
                assert(before[j] == self.output_nodes@[j]);
                assert(indexes_below(before[j].input_indexes@, self.nodes@.len() as int));
            } else {
                assert(indexes_below(before[j].input_indexes@, self.nodes@.len() as int));
            }
        }
    }

    /// Points one random reference of one random output counter at a
    /// wired gate it does not read yet. Nothing changes only when the drawn
    /// counter has no reference or no such gate exists.
    pub fn mutate_output_node(&mut self)
        requires
            old(self).wf(),
        ensures
            final(self).wf(),
            (exists|j: int, slot: int, v: usize|
                output_draw_ok(old(self).node_seq(), old(self).output_seq(), j, slot, v)
                && #[trigger] retargeted(old(self).node_seq(), old(self).output_seq(), final(self).node_seq(),
                    final(self).output_seq(), j, slot, v))
            || (final(self).node_seq() == old(self).node_seq() && final(self).output_seq() == old(self).output_seq()
                && no_output_site(old(self).node_seq(), old(self).output_seq())),
    {
        if self.output_nodes.len() == 0 {
            return;
        }
        let o = random_below(self.output_nodes.len());
        let n_in = self.output_nodes[o].input_indexes.len();
        if n_in == 0 {
            assert(counter_stuck(self.nodes@, self.output_nodes@, o as int));
            return;
        }
        let slot = random_below(n_in);
        let mut candidates: Vec<usize> = Vec::new();
        let mut i: usize = 0;
        while i < self.nodes.len()
            invariant
                self.wf(),
                i <= self.nodes@.len(),
                o < self.output_nodes@.len(),
                forall|k: int| 0 <= k < candidates@.len() ==> wired_gate(self.nodes@, #[trigger] candidates@[k] as int)
                    && !self.output_nodes@[o as int].input_indexes@.contains(candidates@[k]),
                forall|v: usize| (v as int) < (i as int) && #[trigger] wired_gate(self.nodes@, v as int)
                    && !self.output_nodes@[o as int].input_indexes@.contains(v) ==> candidates@.contains(v),
            decreases self.nodes.len() - i,
        {
            if self.nodes[i].input_indexes.len() > 0 && !contains_index(&self.output_nodes[o].input_indexes, i) {
                assert(node_ok(self.nodes@, i as int));
                let ghost before = candidates@;
                candidates.push(i);
                assert(candidates@[before.len() as int] == i);
                assert forall|v: usize| (v as int) < (i + 1) as int && #[trigger] wired_gate(self.nodes@, v as int)
                    && !self.output_nodes@[o as int].input_indexes@.contains(v) implies candidates@.contains(v) by {
                    if v != i {
                        assert(before.contains(v));
                        let w = choose|w: int| 0 <= w < before.len() && before[w] == v;
                        assert(candidates@[w] == v);
                    }
                }
            }
            i = i + 1;
        }
        if candidates.len() == 0 {
            assert(counter_stuck(self.nodes@, self.output_nodes@, o as int));
            return;
        }
        let c = random_below(candidates.len());
        let new_index = candidates[c];
        assert(candidates@[c as int] == new_index);
        self.set_output_input(o, slot, new_index);
        assert(retargeted(old(self).node_seq(), old(self).output_seq(), self.node_seq(), self.output_seq(),
            o as int, slot as int, new_index));
    }

    /// Mutates one random site: half the time an output reference (see
    /// `mutate_output_node`), else a random wired gate, which with even odds
    /// first becomes a gate of a random kind that fits its position, and
    /// then reads a fresh set of distinct earlier nodes, as many as its kind
    /// asks (or as there are). Everything else is left as it was; nothing
    /// changes only when the drawn kind of site does not exist.
    pub fn mutate(&mut self)
        requires
            old(self).wf(),
        ensures
            final(self).wf(),
            final(self).node_seq().len() == old(self).node_seq().len(),
            final(self).output_seq().len() == old(self).output_seq().len(),
            mutation_of(old(self).node_seq(), old(self).output_seq(), final(self).node_seq(), final(self).output_seq()),
            forall|j: int| 0 <= j < old(self).output_seq().len() ==>
                (#[trigger] final(self).output_seq()[j]).input_indexes@.len() == old(self).output_seq()[j].input_indexes@.len(),
            forall|i: int| 0 <= i < old(self).node_seq().len() && old(self).node_seq()[i].node_type == NodeType::Input
                ==> #[trigger] final(self).node_seq()[i] == old(self).node_seq()[i],
            forall|i: int| 0 <= i < final(self).node_seq().len() ==> (#[trigger] final(self).node_seq()[i]).index == i,
    {
        if random_bool() {
            self.mutate_output_node();
            proof {
                lemma_mutation_shape(old(self).node_seq(), old(self).output_seq(), self.node_seq(), self.output_seq());
                assert forall|k: int| 0 <= k < self.node_seq().len() implies (#[trigger] self.node_seq()[k]).index == k by {
                    assert(node_ok(self.nodes@, k));
                }
            }
            return;
        }
        let mut mutable: Vec<usize> = Vec::new();
        let mut i: usize = 0;
        while i < self.nodes.len()
            invariant
                self.wf(),
                i <= self.nodes@.len(),
                forall|k: int| 0 <= k < mutable@.len() ==> wired_gate(self.nodes@, #[trigger] mutable@[k] as int),
                forall|v: int| 0 <= v < i && #[trigger] wired_gate(self.nodes@, v) ==> mutable@.len() > 0,
            decreases self.nodes.len() - i,
        {
            if self.nodes[i].input_indexes.len() > 0 {
                assert(node_ok(self.nodes@, i as int));
                mutable.push(i);
                assert(wired_gate(self.nodes@, mutable@[mutable@.len() - 1] as int));
            }
            i = i + 1;
        }
        if mutable.len() == 0 {
            assert forall|v: int| !#[trigger] wired_gate(self.nodes@, v) by {
                if wired_gate(self.nodes@, v) {
                    assert(0 <= v < i);
                }
            }
            proof {
                assert forall|k: int| 0 <= k < self.node_seq().len() implies (#[trigger] self.node_seq()[k]).index == k by {
                    assert(node_ok(self.nodes@, k));
                }
            }
            return;
        }
        let node_index = mutable[random_below(mutable.len())];
        proof {
            assert(node_ok(self.nodes@, node_index as int));
            assert(self.nodes@[node_index as int].input_indexes@[0] < node_index);
        }
        let kind: Option<NodeType> = if random_bool() {
            if node_index >= 2 { Some(get_random_node_instance().node_type) } else { Some(NodeType::Not) }
        } else {
            None
        };
        let want = match kind {
            Some(k) => if k == NodeType::Not { 1usize } else { 2usize },
            None => self.nodes[node_index].num_inputs,
        };
        let pool = index_range(node_index);
        let picks = choose_multiple(&pool, want);
        assert forall|k: int| 0 <= k < picks@.len() implies #[trigger] picks@[k] < node_index by {
            assert(pool@.contains(picks@[k]));
        }
        let ghost old_nodes = self.nodes@;
        let ghost old_outs = self.output_nodes@;
        self.rewire_node(node_index, kind, &picks);
        assert(rewire_draw_ok(old_nodes, node_index as int, kind, picks@));
        assert(rewired(old_nodes, old_outs, self.node_seq(), self.output_seq(), node_index as int, kind, picks@));
        proof {
            lemma_mutation_shape(old_nodes, old_outs, self.node_seq(), self.output_seq());
            assert forall|k: int| 0 <= k < self.node_seq().len() implies (#[trigger] self.node_seq()[k]).index == k by {
                assert(node_ok(self.nodes@, k));
            }
        }
    }
}

impl GamePlayer for GenBot3 {
    open spec fn legal_answers(&self) -> bool {
        true
    }

    open spec fn magic(&self) -> bool {
        false
    }

    open spec fn deterministic(&self) -> bool {
        true
    }

    open spec fn choice(&self, inputs: Seq<bool>, moves: Seq<u32>) -> u32 {
        decision(self.node_seq(), self.output_seq(), inputs, moves)
    }

    open spec fn choices(&self, inputs: Seq<bool>, moves: Seq<u32>) -> Seq<u32> {
        seq![decision(self.node_seq(), self.output_seq(), inputs, moves)]
    }

    fn is_magic(&self) -> bool {
        false
    }

    fn is_genetic(&self) -> bool {
        true
    }

    fn process(&mut self, inputs: &Vec<bool>, available_moves: &Vec<u32>) -> u32 {
        self.decide(inputs, available_moves)
    }

    fn process_magic(&mut self, inputs: &Vec<bool>, available_moves: &Vec<u32>) -> Vec<u32> {
        vec![self.decide(inputs, available_moves)]
    }
}

} // verus!
