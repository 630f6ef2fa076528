use naughts::circuit::{index_range, GenBot3, NUM_GATES};
use naughts::game::GameInfo;
use naughts::nodes::{get_node_instance, Node, NodeOutput, NodeType};
use naughts::player::GamePlayer;
use naughts::rng::{choose_multiple, random_below};

fn sample_circuit() -> GenBot3 {
    let mut nodes = Vec::new();
    for i in 0..2 {
        let mut n = get_node_instance("NODE_INPUT");
        n.index = i;
        nodes.push(n);
    }
    let mut and = Node::new_typed(NodeType::And);
    and.add_input_node(0);
    and.add_input_node(1);
    and.index = 2;
    nodes.push(and);
    let mut not = Node::new_typed(NodeType::Not);
    not.add_input_node(2);
    not.index = 3;
    nodes.push(not);
    let mut o0 = NodeOutput::new();
    o0.add_input_node(2);
    let mut o1 = NodeOutput::new();
    o1.add_input_node(3);
    o1.add_input_node(0);
    GenBot3::from_parts(nodes, vec![o0, o1]).unwrap()
}

#[test]
fn recipe_text_is_exact() {
    let g = sample_circuit();
    assert_eq!(
        g.get_recipe(),
        "NODE_INPUT,NODE_INPUT,NODE_AND:0:1,NODE_NOT:2,NODE_OUTPUT:2,NODE_OUTPUT:3:0"
    );
}

#[test]
fn recipe_round_trip_of_fresh_genome() {
    let info = GameInfo { input_count: 18, output_count: 9 };
    let g = GenBot3::new(&info);
    let text = g.get_recipe();
    let back = GenBot3::from_recipe(&text).expect("canonical recipe");
    assert_eq!(back.get_recipe(), text);
    assert_eq!(back.node_count(), 18 + NUM_GATES);
    assert_eq!(back.output_count(), 9);
}

#[test]
fn malformed_recipes_are_refused() {
    assert!(GenBot3::from_recipe("NODE_FOO:1").is_none());
    assert!(GenBot3::from_recipe("NODE_INPUT,NODE_AND:0:x").is_none());
    assert!(GenBot3::from_recipe("NODE_INPUT,NODE_AND:0:5").is_none());
    assert!(GenBot3::from_recipe("NODE_INPUT,NODE_NOT:00").is_none());
    let empty = GenBot3::from_recipe("").unwrap();
    assert_eq!(empty.node_count(), 0);
    assert_eq!(empty.get_recipe(), "");
}

#[test]
fn circuit_decides_by_counters() {
    let mut g = sample_circuit();
    // Inputs true, true: AND is true, NOT false; counter 0 counts 1,
    // counter 1 counts NOT and input 0, also 1: the first wins the tie.
    assert_eq!(g.decide(&vec![true, true], &vec![0, 1]), 0);
    // Inputs true, false: AND false, NOT true; counter 1 counts 2.
    assert_eq!(g.decide(&vec![true, false], &vec![0, 1]), 1);
    // Only move 0 legal.
    assert_eq!(g.process(&vec![true, false], &vec![0]), 0);
    // A move without a counter ranks 0.
    assert_eq!(g.decide(&vec![false, false], &vec![7, 1]), 1);
    let vals = g.node_values(&vec![true, false]);
    assert_eq!(vals, vec![true, false, false, true]);
    assert_eq!(g.output_counts(&vals), vec![0, 2]);
}

#[test]
fn rank_ties_go_to_the_lowest_move() {
    let g = GenBot3::from_parts(Vec::new(), (0..4).map(|_| NodeOutput::new()).collect()).unwrap();
    assert_eq!(g.decide(&vec![], &vec![3, 1]), 1);
    let s = sample_circuit();
    // Inputs true, true: both counters count 1; the lower move wins.
    assert_eq!(s.decide(&vec![true, true], &vec![1, 0]), 0);
}

#[test]
fn misplaced_node_index_is_refused() {
    let mut n = get_node_instance("NODE_INPUT");
    n.index = 5;
    assert!(GenBot3::from_parts(vec![n], Vec::new()).is_none());
}

#[test]
fn decide_is_always_legal() {
    let info = GameInfo { input_count: 18, output_count: 9 };
    for _ in 0..20 {
        let g = GenBot3::new(&info);
        let inputs: Vec<bool> = (0..18).map(|i| i % 3 == 0).collect();
        let legal = vec![2, 5, 7];
        let m = g.decide(&inputs, &legal);
        assert!(legal.contains(&m));
    }
}

#[test]
fn mutation_keeps_arity() {
    let info = GameInfo { input_count: 18, output_count: 9 };
    let mut g = GenBot3::new(&info);
    for _ in 0..50 {
        g.mutate();
        assert_eq!(g.node_count(), 18 + NUM_GATES);
        assert_eq!(g.output_count(), 9);
        for i in 0..18 {
            assert_eq!(g.node(i).node_type, NodeType::Input);
        }
        let text = g.get_recipe();
        assert_eq!(GenBot3::from_recipe(&text).unwrap().get_recipe(), text);
    }
}

#[test]
fn rewire_and_output_mutation_change_the_site() {
    let mut g = sample_circuit();
    g.rewire_node(2, Some(NodeType::Or), &vec![1, 0]);
    assert_eq!(g.node(2).node_type, NodeType::Or);
    assert_eq!(g.node(2).input_indexes, vec![1, 0]);
    g.set_output_input(1, 0, 2);
    assert_eq!(g.output_node(1).input_indexes, vec![2, 0]);
    assert_eq!(
        g.get_recipe(),
        "NODE_INPUT,NODE_INPUT,NODE_OR:1:0,NODE_NOT:2,NODE_OUTPUT:2,NODE_OUTPUT:2:0"
    );
}

#[test]
fn output_mutation_picks_an_unused_gate() {
    let mut g = sample_circuit();
    g.mutate_output_node();
    let text = g.get_recipe();
    assert!(text.starts_with("NODE_INPUT,NODE_INPUT,NODE_AND:0:1,NODE_NOT:2,"));
    assert_eq!(g.output_count(), 2);
}

#[test]
fn node_gates() {
    let cases = [
        (NodeType::And, [false, false, false, true]),
        (NodeType::Or, [false, true, true, true]),
        (NodeType::Xor, [false, true, true, false]),
        (NodeType::Nand, [true, true, true, false]),
        (NodeType::Nor, [true, false, false, false]),
        (NodeType::Xnor, [true, false, false, true]),
    ];
    for (t, expect) in cases.iter() {
        let mut n = Node::new_typed(*t);
        n.add_input_node(0);
        n.add_input_node(1);
        let ins = [[false, false], [false, true], [true, false], [true, true]];
        for k in 0..4 {
            assert_eq!(n.process(&ins[k]), expect[k]);
        }
        n.update(&[true, true]);
        assert_eq!(n.output, expect[3]);
    }
    let mut not = Node::new_typed(NodeType::Not);
    assert_eq!(not.num_inputs, 1);
    not.add_input_node(0);
    assert!(not.process(&[false]));
    assert_eq!(not.name(), "NODE_NOT");
    assert_eq!(Node::new_typed(NodeType::Xnor).name(), "NODE_XNOR");
    assert_eq!(Node::new_typed(NodeType::And).num_inputs, 2);
    let mut out = NodeOutput::new();
    out.add_input_node(0);
    out.add_input_node(2);
    out.update(&[true, false, true]);
    assert_eq!(out.output, 2);
    assert_eq!(out.process(&[false, false]), 0);
    assert_eq!(out.name(), "NODE_OUTPUT");
    assert_eq!(get_node_instance("NODE_NAND").node_type, NodeType::Nand);
}

#[test]
fn random_draws_stay_in_range() {
    for _ in 0..100 {
        assert!(random_below(3) < 3);
    }
    let pool = index_range(10);
    assert_eq!(pool, (0..10).collect::<Vec<usize>>());
    let picks = choose_multiple(&pool, 4);
    assert_eq!(picks.len(), 4);
    let mut sorted = picks.clone();
    sorted.sort();
    sorted.dedup();
    assert_eq!(sorted.len(), 4);
    assert_eq!(choose_multiple(&pool, 20).len(), 10);
}

#[test]
fn mutation_touches_at_most_one_site() {
    let info = GameInfo { input_count: 18, output_count: 9 };
    let mut g = GenBot3::new(&info);
    for _ in 0..50 {
        let before = g.get_recipe();
        g.mutate();
        let after = g.get_recipe();
        let changed = before
            .split(',')
            .zip(after.split(','))
            .filter(|(a, b)| a != b)
            .count();
        assert!(changed <= 1);
        assert_eq!(before.split(',').count(), after.split(',').count());
    }
}

#[test]
fn fresh_genome_shape() {
    let info = GameInfo { input_count: 18, output_count: 9 };
    let g = GenBot3::new(&info);
    for i in 18..g.node_count() {
        let n = g.node(i);
        assert_ne!(n.node_type, NodeType::Input);
        assert_eq!(n.index, i);
        let want = if n.node_type == NodeType::Not { 1 } else { 2 };
        assert_eq!(n.input_indexes.len(), want);
        assert!(n.input_indexes.iter().all(|x| *x < i));
        assert!(n.input_indexes.len() < 2 || n.input_indexes[0] != n.input_indexes[1]);
    }
    for j in 0..g.output_count() {
        let mut idx = g.output_node(j).input_indexes.clone();
        assert_eq!(idx.len(), 20);
        idx.sort();
        idx.dedup();
        assert_eq!(idx.len(), 20);
    }
}

#[test]
fn children_are_single_mutations_of_the_parent() {
    let g = sample_circuit();
    let parent = g.get_recipe();
    let kids = naughts::recipe::circuit_children(&parent, 10);
    assert_eq!(kids.len(), 10);
    for (child, differs) in kids {
        assert_eq!(differs, child != parent);
        let changed = parent.split(',').zip(child.split(',')).filter(|(a, b)| a != b).count();
        assert!(changed <= 1);
    }
    let fresh = naughts::recipe::circuit_children("not a recipe", 2);
    assert_eq!(fresh[0].0, "");
    assert!(fresh[0].1);
}
