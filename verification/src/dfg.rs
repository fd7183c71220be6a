//! Data flow graphs as extracted from source files: a flat list of nodes,
//! each numbered by its position.

use vstd::prelude::*;

verus! {

/// A node of the graph.
#[derive(Debug, Clone)]
pub struct DfgNode {
    pub id: usize,
    pub op: String,
    pub operands: Vec<usize>,
}

/// A complete data flow graph.
#[derive(Debug, Clone)]
pub struct DataFlowGraph {
    pub nodes: Vec<DfgNode>,
    pub source_file: String,
}

impl DataFlowGraph {
    /// Every node is numbered by its position.
    pub open spec fn numbered(self) -> bool {
        forall|i: int| 0 <= i < self.nodes@.len() ==> (#[trigger] self.nodes@[i]).id == i
    }

    /// A graph without nodes.
    pub fn new(source_file: &str) -> (res: Self)
        ensures
            res.nodes@.len() == 0,
            res.source_file@ == source_file@,
            res.numbered(),
    {
        DataFlowGraph { nodes: Vec::new(), source_file: source_file.to_owned() }
    }

    /// Append a node; its number is returned.
    pub fn add_node(&mut self, op: &str, operands: Vec<usize>) -> (res: usize)
        ensures
            res == old(self).nodes@.len(),
            final(self).nodes@.len() == old(self).nodes@.len() + 1,
            final(self).nodes@.drop_last() == old(self).nodes@,
            final(self).nodes@.last().id == res,
            final(self).nodes@.last().op@ == op@,
            final(self).nodes@.last().operands == operands,
            final(self).source_file == old(self).source_file,
            old(self).numbered() ==> final(self).numbered(),
    {
        let id: usize = self.nodes.len();
        self.nodes.push(DfgNode { id, op: op.to_owned(), operands });
        proof {
            assert(self.nodes@.drop_last() =~= old(self).nodes@);
        }
        id
    }

    /// Number of nodes.
    pub fn node_count(&self) -> (res: usize)
        ensures
            res == self.nodes@.len(),
    {
        self.nodes.len()
    }
}

/// Adding a node puts it behind those that are there, under the next number,
/// with its operation and operands; nothing else changes.
pub proof fn law_nodes_are_added_at_the_end(
    g: &mut DataFlowGraph,
    op: &str,
    operands: Vec<usize>,
    id: usize,
    i: int,
)
    requires
        call_ensures(DataFlowGraph::add_node, (g, op, operands), id),
    ensures
        id == old(g).nodes@.len(),
        final(g).nodes@.len() == old(g).nodes@.len() + 1,
        final(g).nodes@[id as int].id == id,
        final(g).nodes@[id as int].op@ == op@,
        final(g).nodes@[id as int].operands == operands,
        0 <= i < old(g).nodes@.len() ==> final(g).nodes@[i] == old(g).nodes@[i],
        final(g).source_file == old(g).source_file,
{
    if 0 <= i < old(g).nodes@.len() {
        assert(final(g).nodes@.drop_last()[i] == final(g).nodes@[i]);
    }
}

/// A new graph has no nodes and knows its file, and the number of nodes is
/// how many there are.
pub proof fn law_graphs_start_without_nodes(
    source_file: &str,
    new: DataFlowGraph,
    g: &DataFlowGraph,
    n: usize,
)
    requires
        call_ensures(DataFlowGraph::new, (source_file,), new),
        call_ensures(DataFlowGraph::node_count, (g,), n),
    ensures
        new.nodes@.len() == 0,
        new.source_file@ == source_file@,
        n == g.nodes@.len(),
{
}

} // verus!
