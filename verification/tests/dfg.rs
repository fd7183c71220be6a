//! Flat data flow graphs.

use ouroboros_dfg::dfg::DataFlowGraph;

#[test]
fn test_new_dfg_is_empty() {
    let dfg = DataFlowGraph::new("test.py");
    assert_eq!(dfg.node_count(), 0);
    assert_eq!(dfg.source_file, "test.py");
}

#[test]
fn test_add_node() {
    let mut dfg = DataFlowGraph::new("test.py");
    let id = dfg.add_node("add", vec![0, 1]);
    assert_eq!(id, 0);
    assert_eq!(dfg.node_count(), 1);
}

#[test]
fn test_node_operands() {
    let mut dfg = DataFlowGraph::new("test.py");
    dfg.add_node("const", vec![]);
    dfg.add_node("const", vec![]);
    let add_id = dfg.add_node("add", vec![0, 1]);
    assert_eq!(dfg.nodes[add_id].operands, vec![0, 1]);
}

#[test]
fn nodes_are_numbered_by_position() {
    let mut dfg = DataFlowGraph::new("a.cpp");
    for op in ["load", "load", "mul", "store"] {
        dfg.add_node(op, vec![]);
    }
    for (i, node) in dfg.nodes.iter().enumerate() {
        assert_eq!(node.id, i);
    }
    assert_eq!(dfg.nodes[2].op, "mul");
}
