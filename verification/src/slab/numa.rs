//! NUMA layout: which node each core belongs to.
use vstd::prelude::*;

verus! {

/// The NUMA layout of the machine.
#[derive(Debug, Clone)]
pub struct NumaInfo {
    pub num_nodes: usize,
    pub cores_per_node: usize,
    pub total_cores: usize,
    /// The node of each core, by core id.
    pub core_to_node: Vec<usize>,
}

/// The cores, below `n`, that belong to `node`, in increasing order.
pub open spec fn cores_of(map: Seq<usize>, node: usize, n: int) -> Seq<usize>
    decreases n,
{
    if n <= 0 {
        Seq::empty()
    } else if map[n - 1] == node {
        cores_of(map, node, n - 1).push((n - 1) as usize)
    } else {
        cores_of(map, node, n - 1)
    }
}

/// The layout of `total_cores` cores split evenly over `num_nodes` nodes:
/// core `c` on node `c / (total_cores / num_nodes)`.
pub open spec fn topology_map(total_cores: usize, num_nodes: usize) -> Seq<usize> {
    Seq::new(total_cores as nat, |c: int| (c / (total_cores / num_nodes) as int) as usize)
}

/// The node of `core` in the layout `map`; 0 for a core past it.
pub open spec fn node_of(map: Seq<usize>, core: usize) -> usize {
    if core < map.len() { map[core as int] } else { 0 }
}

impl NumaInfo {
    /// The node of each core, by core id.
    pub open spec fn node_map(&self) -> Seq<usize> {
        self.core_to_node@
    }

    /// The layout found on a machine with `total_cores` cores and `num_nodes`
    /// nodes: the cores split evenly, core `c` on node `c / (total_cores / num_nodes)`.
    pub fn from_topology(total_cores: usize, num_nodes: usize) -> (info: Self)
        requires
            num_nodes >= 1,
            total_cores == 0 || num_nodes <= total_cores,
        ensures
            info.num_nodes == num_nodes,
            info.cores_per_node == total_cores / num_nodes,
            info.total_cores == total_cores,
            info.node_map() == topology_map(total_cores, num_nodes),
    {
        let cores_per_node = total_cores / num_nodes;
        assert(total_cores > 0 ==> cores_per_node > 0) by (nonlinear_arith)
            requires
                cores_per_node == total_cores / num_nodes,
                num_nodes >= 1,
                total_cores == 0 || num_nodes <= total_cores;
        let mut core_to_node: Vec<usize> = Vec::new();
        let mut c: usize = 0;
        while c < total_cores
            invariant
                c <= total_cores,
                cores_per_node == total_cores / num_nodes,
                cores_per_node > 0 || total_cores == 0,
                core_to_node@ == Seq::new(c as nat, |k: int| (k / cores_per_node as int) as usize),
            decreases total_cores - c,
        {
            core_to_node.push(c / cores_per_node);
            c = c + 1;
            assert(core_to_node@ =~= Seq::new(c as nat, |k: int| (k / cores_per_node as int) as usize));
        }
        assert(core_to_node@ =~= topology_map(total_cores, num_nodes));
        NumaInfo { num_nodes, cores_per_node, total_cores, core_to_node }
    }

    /// A single node holding all `total_cores` cores.
    pub fn single_node(total_cores: usize) -> (info: Self)
        ensures
            info.num_nodes == 1,
            info.cores_per_node == total_cores,
            info.total_cores == total_cores,
            info.node_map() == Seq::new(total_cores as nat, |c: int| 0usize),
    {
        let mut core_to_node: Vec<usize> = Vec::new();
        let mut c: usize = 0;
        while c < total_cores
            invariant
                c <= total_cores,
                core_to_node@ == Seq::new(c as nat, |k: int| 0usize),
            decreases total_cores - c,
        {
            core_to_node.push(0);
            c = c + 1;
            assert(core_to_node@ =~= Seq::new(c as nat, |k: int| 0usize));
        }
        NumaInfo { num_nodes: 1, cores_per_node: total_cores, total_cores, core_to_node }
    }

    /// The number of cores the layout maps.
    pub fn mapped_cores(&self) -> (n: usize)
        ensures
            n == self.node_map().len(),
    {
        self.core_to_node.len()
    }

    /// The node of a core; 0 for a core past the layout.
    pub fn node_for_core(&self, core_id: usize) -> (node: usize)
        ensures
            node == node_of(self.node_map(), core_id),
    {
        if core_id < self.core_to_node.len() {
            self.core_to_node[core_id]
        } else {
            0
        }
    }

    /// The cores of a node, in increasing order.
    pub fn cores_in_node(&self, node: usize) -> (cores: Vec<usize>)
        ensures
            cores@ == cores_of(self.node_map(), node, self.node_map().len() as int),
    {
        let mut cores: Vec<usize> = Vec::new();
        let mut c: usize = 0;
        while c < self.core_to_node.len()
            invariant
                c <= self.core_to_node@.len(),
                cores@ == cores_of(self.node_map(), node, c as int),
            decreases self.core_to_node@.len() - c,
        {
            if self.core_to_node[c] == node {
                cores.push(c);
            }
            c = c + 1;
        }
        cores
    }

    /// Whether two cores are on the same node (see `node_for_core`).
    pub fn same_node(&self, core_a: usize, core_b: usize) -> (b: bool)
        ensures
            b == (node_of(self.node_map(), core_a) == node_of(self.node_map(), core_b)),
    {
        self.node_for_core(core_a) == self.node_for_core(core_b)
    }
}

/// Core 0 is always on node 0, whatever the machine's layout.
pub proof fn law_core_zero_on_node_zero(total_cores: usize, num_nodes: usize)
    requires
        num_nodes >= 1,
        total_cores == 0 || num_nodes <= total_cores,
    ensures
        node_of(topology_map(total_cores, num_nodes), 0) == 0,
        node_of(Seq::new(total_cores as nat, |c: int| 0usize), 0) == 0,
{
    if total_cores > 0 {
        assert(total_cores / num_nodes > 0) by (nonlinear_arith)
            requires num_nodes >= 1, num_nodes <= total_cores;
        assert(topology_map(total_cores, num_nodes)[0] == 0);
    }
}

} // verus!
