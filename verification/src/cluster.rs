//! Cluster bookkeeping: nodes identified by caller-supplied string
//! identifiers and socket addresses, their capabilities, status and load,
//! the manager that registers them, and the load balancer that picks a node
//! for a task by strategy. Loads are held in thousandths (a load of one is
//! `1000`) and memory in whole megabytes.

use vstd::prelude::*;

use crate::error::{ErrorKind, ParallelError};
use crate::text::chars_of;
use crate::vthread::detect_cpu_count;

verus! {

/// The status of a cluster node.
#[derive(Clone, Copy, Debug, PartialEq, Eq, Structural)]
pub enum NodeStatus {
    Active,
    Busy,
    Offline,
    Failed,
}

/// What a node offers: processor cores, memory in megabytes, graphics
/// devices, and free-form specializations.
#[derive(Debug)]
pub struct NodeCapabilities {
    pub cpu_cores: usize,
    pub memory_mb: u64,
    pub gpu_count: usize,
    pub specialized: Vec<String>,
}

/// One node of the cluster.
#[derive(Debug)]
pub struct ClusterNode {
    pub id: String,
    pub address: String,
    pub status: NodeStatus,
    pub capabilities: NodeCapabilities,
    pub load_milli: u32,
}

/// The index of the last colon in a character sequence, or minus one.
pub open spec fn last_colon(s: Seq<char>) -> int
    decreases s.len(),
{
    if s.len() == 0 {
        -1
    } else if s.last() == ':' {
        s.len() - 1
    } else {
        last_colon(s.drop_last())
    }
}

/// Every character is a decimal digit.
pub open spec fn all_digits(s: Seq<char>) -> bool {
    forall|i: int| 0 <= i < s.len() ==> '0' <= #[trigger] s[i] <= '9'
}

/// The numeric value of a digit sequence.
pub open spec fn digits_val(s: Seq<char>) -> int
    decreases s.len(),
{
    if s.len() == 0 {
        0
    } else {
        digits_val(s.drop_last()) * 10 + (s.last() as int - '0' as int)
    }
}

/// A parseable socket address: a non-empty host, a colon, and a port of one
/// to five digits whose value fits sixteen bits.
pub open spec fn spec_valid_address(s: Seq<char>) -> bool {
    let k = last_colon(s);
    &&& k >= 1
    &&& k < s.len() - 1
    &&& s.len() - 1 - k <= 5
    &&& all_digits(s.subrange(k + 1, s.len() as int))
    &&& digits_val(s.subrange(k + 1, s.len() as int)) <= 65535
}

/// A digit sequence of bounded length has a bounded value.
proof fn lemma_digits_bound(s: Seq<char>)
    requires
        all_digits(s),
        s.len() <= 5,
    ensures
        0 <= digits_val(s),
        digits_val(s) <= if s.len() == 0 {
            0int
        } else if s.len() == 1 {
            9int
        } else if s.len() == 2 {
            99int
        } else if s.len() == 3 {
            999int
        } else if s.len() == 4 {
            9999int
        } else {
            99999int
        },
    decreases s.len(),
{
    if s.len() > 0 {
        assert(forall|i: int|
            0 <= i < s.drop_last().len() ==> '0' <= #[trigger] s.drop_last()[i] <= '9');
        lemma_digits_bound(s.drop_last());
        assert('0' <= s.last() <= '9');
    }
}

/// A colon with no colon after it is the last colon.
proof fn lemma_last_colon_at(s: Seq<char>, j: int)
    requires
        0 <= j < s.len(),
        s[j] == ':',
        forall|q: int| j < q < s.len() ==> s[q] != ':',
    ensures
        last_colon(s) == j,
    decreases s.len(),
{
    if j == s.len() - 1 {
    } else {
        assert(s.last() != ':');
        assert(forall|q: int| j < q < s.drop_last().len() ==> s.drop_last()[q] != ':');
        lemma_last_colon_at(s.drop_last(), j);
    }
}

/// A sequence without a colon has no last colon.
proof fn lemma_no_colon(s: Seq<char>)
    requires
        forall|q: int| 0 <= q < s.len() ==> s[q] != ':',
    ensures
        last_colon(s) == -1,
    decreases s.len(),
{
    if s.len() > 0 {
        assert(forall|q: int| 0 <= q < s.drop_last().len() ==> s.drop_last()[q] != ':');
        lemma_no_colon(s.drop_last());
    }
}

/// Whether a string is a parseable socket address.
#[verifier::spinoff_prover]
pub fn validate_address(address: &str) -> (r: bool)
    ensures
        r == spec_valid_address(address@),
{
    let chars = chars_of(address);
    let n = chars.len();
    // Find the last colon.
    let mut colon: Option<usize> = None;
    let mut i: usize = n;
    while i > 0 && colon.is_none()
        invariant
            i <= n,
            n == chars@.len(),
            match colon {
                Some(k) => k < n && chars@[k as int] == ':' && forall|q: int|
                    k < q < n ==> chars@[q] != ':',
                None => forall|q: int| i <= q < n ==> chars@[q] != ':',
            },
        decreases i, (if colon is None {
            1int
        } else {
            0int
        }),
    {
        if chars[i - 1] == ':' {
            colon = Some(i - 1);
        } else {
            i = i - 1;
        }
    }
    let k = match colon {
        Some(k) => k,
        None => {
            proof {
                lemma_no_colon(chars@);
            }
            return false;
        },
    };
    proof {
        lemma_last_colon_at(chars@, k as int);
    }
    if k < 1 || k >= n - 1 || n - 1 - k > 5 {
        return false;
    }
    // Check the port digits and value.
    let ghost port = chars@.subrange(k + 1, n as int);
    let mut value: u32 = 0;
    let mut j: usize = k + 1;
    while j < n
        invariant
            k + 1 <= j <= n,
            n == chars@.len(),
            chars@ == address@,
            1 <= k < n - 1,
            n - 1 - k <= 5,
            last_colon(chars@) == k,
            port == chars@.subrange(k + 1, n as int),
            all_digits(port.take(j - (k + 1))),
            value == digits_val(port.take(j - (k + 1))),
            value <= 99999,
        decreases n - j,
    {
        let c = chars[j];
        if c < '0' || c > '9' {
            proof {
                assert(port[j - (k + 1)] == chars@[j as int]);
                assert(!all_digits(chars@.subrange(k + 1, n as int)));
            }
            return false;
        }
        proof {
            assert(port[j - (k + 1)] == chars@[j as int]);
            assert(port.take(j - (k + 1) + 1) =~= port.take(j - (k + 1)).push(port[j - (k + 1)]));
            assert(port.take(j - (k + 1) + 1).drop_last() =~= port.take(j - (k + 1)));
            lemma_digits_bound(port.take(j - (k + 1)));
            lemma_digits_bound(port.take(j - (k + 1) + 1));
        }
        value = value * 10 + (c as u32 - '0' as u32);
        j = j + 1;
    }
    proof {
        assert(port.take(port.len() as int) =~= port);
    }
    value <= 65535
}

/// Maintains the set of known cluster nodes, keyed by their identifiers.
#[derive(Debug)]
pub struct ClusterManager {
    pub nodes: Vec<ClusterNode>,
    pub local_node: ClusterNode,
    pub coordinator: bool,
}

/// Add two quantities, saturating at the 64-bit maximum.
pub open spec fn sat_add(a: int, b: int) -> int {
    if a + b > u64::MAX {
        u64::MAX as int
    } else {
        a + b
    }
}

/// The saturating total of the nodes' core counts.
pub open spec fn spec_total_cores(ns: Seq<ClusterNode>) -> int
    decreases ns.len(),
{
    if ns.len() == 0 {
        0
    } else {
        sat_add(spec_total_cores(ns.drop_last()), ns.last().capabilities.cpu_cores as int)
    }
}

/// The saturating total of the nodes' memory, in megabytes.
pub open spec fn spec_total_memory(ns: Seq<ClusterNode>) -> int
    decreases ns.len(),
{
    if ns.len() == 0 {
        0
    } else {
        sat_add(spec_total_memory(ns.drop_last()), ns.last().capabilities.memory_mb as int)
    }
}

/// The saturating total of the nodes' loads, in thousandths.
pub open spec fn spec_total_load(ns: Seq<ClusterNode>) -> int
    decreases ns.len(),
{
    if ns.len() == 0 {
        0
    } else {
        sat_add(spec_total_load(ns.drop_last()), ns.last().load_milli as int)
    }
}

/// Whether a node is active.
pub open spec fn node_active(n: ClusterNode) -> bool {
    n.status is Active
}

/// How many nodes are active.
pub open spec fn count_active(ns: Seq<ClusterNode>) -> int {
    ns.filter(|n: ClusterNode| node_active(n)).len() as int
}

/// A cluster statistics snapshot: node and active-node counts, the summed
/// cores and memory, the average load in thousandths, and the share of
/// active nodes in thousandths.
pub struct ClusterStats {
    pub total_nodes: usize,
    pub active_nodes: usize,
    pub total_cores: u64,
    pub total_memory_mb: u64,
    pub average_load_milli: u64,
    pub availability_milli: u64,
}

impl ClusterManager {
    /// Node identifiers are unique.
    pub open spec fn wf(&self) -> bool {
        forall|i: int, j: int|
            0 <= i < j < self.nodes@.len() ==> (#[trigger] self.nodes@[i]).id@ != (
            #[trigger] self.nodes@[j]).id@
    }

    /// Build a manager whose local node lives at the given address with the
    /// given memory, detecting the processor count. An unparseable address is
    /// rejected with `InvalidArgument`.
    pub fn new(node_id: String, address: String, memory_mb: u64) -> (r: Result<
        ClusterManager,
        ParallelError,
    >)
        ensures
            !spec_valid_address(address@) ==> (r matches Err(e) && e.kind
                == ErrorKind::InvalidArgument),
            spec_valid_address(address@) ==> (r matches Ok(m) && m.wf() && m.nodes@.len() == 0
                && !m.coordinator && m.local_node.id == node_id && m.local_node.address == address
                && m.local_node.status is Active && m.local_node.capabilities.memory_mb == memory_mb
                && m.local_node.capabilities.cpu_cores >= 1 && m.local_node.load_milli == 0),
    {
        if !validate_address(address.as_str()) {
            return Err(ParallelError::new(ErrorKind::InvalidArgument));
        }
        let cores = detect_cpu_count();
        Ok(
            ClusterManager {
                nodes: Vec::new(),
                local_node: ClusterNode {
                    id: node_id,
                    address,
                    status: NodeStatus::Active,
                    capabilities: NodeCapabilities {
                        cpu_cores: cores,
                        memory_mb,
                        gpu_count: 0,
                        specialized: Vec::new(),
                    },
                    load_milli: 0,
                },
                coordinator: false,
            },
        )
    }

    /// Join an existing cluster through its coordinator. Membership is
    /// manually managed: joining records nothing yet.
    pub fn join_cluster(&mut self, coordinator_address: String) -> (r: Result<(), ParallelError>)
        ensures
            r is Ok,
            *final(self) == *old(self),
    {
        let _ = coordinator_address;
        Ok(())
    }

    /// Mark this manager as the cluster's coordinator.
    pub fn start_coordinator(&mut self) -> (r: Result<(), ParallelError>)
        ensures
            r is Ok,
            final(self).coordinator,
            final(self).nodes == old(self).nodes,
            final(self).local_node == old(self).local_node,
    {
        self.coordinator = true;
        Ok(())
    }

    /// The index of the node with the given identifier, if one is known.
    fn find_node(&self, node_id: &String) -> (r: Option<usize>)
        ensures
            match r {
                Some(i) => i < self.nodes@.len() && self.nodes@[i as int].id@ == node_id@,
                None => forall|i: int|
                    0 <= i < self.nodes@.len() ==> (#[trigger] self.nodes@[i]).id@ != node_id@,
            },
    {
        let mut i: usize = 0;
        let n = self.nodes.len();
        while i < n
            invariant
                i <= n,
                n == self.nodes@.len(),
                forall|q: int| 0 <= q < i ==> (#[trigger] self.nodes@[q]).id@ != node_id@,
            decreases n - i,
        {
            if string_eq(&self.nodes[i].id, node_id) {
                return Some(i);
            }
            i = i + 1;
        }
        None
    }

    /// Register a node (or re-register one already known under the same
    /// identifier) as active with no load. An unparseable address is rejected
    /// with `InvalidArgument` and nothing changes.
    pub fn add_node(
        &mut self,
        node_id: String,
        address: String,
        cpu_cores: usize,
        memory_mb: u64,
    ) -> (r: Result<(), ParallelError>)
        requires
            old(self).wf(),
        ensures
            final(self).wf(),
            !spec_valid_address(address@) ==> (r matches Err(e) && e.kind
                == ErrorKind::InvalidArgument) && final(self).nodes@ == old(self).nodes@,
            spec_valid_address(address@) ==> r is Ok && exists|i: int|
                0 <= i < final(self).nodes@.len() && {
                    let n = #[trigger] final(self).nodes@[i];
                    &&& n.id@ == node_id@
                    &&& n.address@ == address@
                    &&& n.status is Active
                    &&& n.capabilities.cpu_cores == cpu_cores
                    &&& n.capabilities.memory_mb == memory_mb
                    &&& n.load_milli == 0
                },
    {
        if !validate_address(address.as_str()) {
            return Err(ParallelError::new(ErrorKind::InvalidArgument));
        }
        let node = ClusterNode {
            id: node_id,
            address,
            status: NodeStatus::Active,
            capabilities: NodeCapabilities {
                cpu_cores,
                memory_mb,
                gpu_count: 0,
                specialized: Vec::new(),
            },
            load_milli: 0,
        };
        let slot = self.find_node(&node.id);
        match slot {
            Some(i) => {
                let ghost pre = self.nodes@;
                let _ = self.nodes.remove(i);
                self.nodes.insert(i, node);
                proof {
                    assert(self.nodes@ =~= pre.update(i as int, self.nodes@[i as int]));
                    assert(self.nodes@[i as int].id@ == pre[i as int].id@);
                }
            },
            None => {
                self.nodes.push(node);
                proof {
                    assert(self.nodes@.last().id@ == node_id@);
                }
            },
        }
        Ok(())
    }

    /// Forget the node with the given identifier, if it is known.
    pub fn remove_node(&mut self, node_id: &String) -> (r: Result<(), ParallelError>)
        requires
            old(self).wf(),
        ensures
            final(self).wf(),
            r is Ok,
            forall|i: int|
                0 <= i < final(self).nodes@.len() ==> (#[trigger] final(self).nodes@[i]).id@
                    != node_id@,
    {
        let slot = self.find_node(node_id);
        match slot {
            Some(i) => {
                let ghost pre = self.nodes@;
                let _ = self.nodes.remove(i);
                proof {
                    assert forall|q: int|
                        0 <= q < self.nodes@.len() implies (#[trigger] self.nodes@[q]).id@
                        != node_id@ by {
                        if q < i {
                            assert(self.nodes@[q] == pre[q]);
                        } else {
                            assert(self.nodes@[q] == pre[q + 1]);
                        }
                    }
                }
            },
            None => {},
        }
        Ok(())
    }

    /// The identifiers of the active nodes, in registration order.
    pub fn get_active_nodes(&self) -> (r: Vec<String>)
        ensures
            r@.map_values(|s: String| s@) == self.nodes@.filter(|n: ClusterNode| node_active(n)).map_values(
                |n: ClusterNode| n.id@,
            ),
    {
        broadcast use vstd::seq_lib::group_filter_ensures;

        let ghost p = |n: ClusterNode| node_active(n);
        let mut out: Vec<String> = Vec::new();
        let mut i: usize = 0;
        let n = self.nodes.len();
        while i < n
            invariant
                i <= n,
                n == self.nodes@.len(),
                out@.map_values(|s: String| s@) == self.nodes@.take(i as int).filter(p).map_values(
                    |n: ClusterNode| n.id@,
                ),
                p == |n: ClusterNode| node_active(n),
            decreases n - i,
        {
            proof {
                assert(self.nodes@.take(i + 1 as int) =~= self.nodes@.take(i as int).push(
                    self.nodes@[i as int],
                ));
                self.nodes@.take(i as int).lemma_filter_push(self.nodes@[i as int], p);
            }
            let keep = match self.nodes[i].status {
                NodeStatus::Active => true,
                _ => false,
            };
            if keep {
                let ghost pre = out@;
                out.push(self.nodes[i].id.clone());
                proof {
                    assert(out@.map_values(|s: String| s@) =~= pre.map_values(|s: String| s@).push(
                        self.nodes@[i as int].id@,
                    ));
                    assert(self.nodes@.take(i + 1 as int).filter(p).map_values(
                        |n: ClusterNode| n.id@,
                    ) =~= self.nodes@.take(i as int).filter(p).map_values(|n: ClusterNode| n.id@).push(
                        self.nodes@[i as int].id@,
                    ));
                }
            } else {
                proof {
                    assert(self.nodes@.take(i + 1 as int).filter(p) == self.nodes@.take(
                        i as int,
                    ).filter(p));
                }
            }
            i = i + 1;
        }
        proof {
            assert(self.nodes@.take(n as int) =~= self.nodes@);
        }
        out
    }

    /// A snapshot of the cluster's totals: node counts, summed cores and
    /// memory (saturating), the average load, and the active share.
    pub fn get_cluster_stats(&self) -> (r: ClusterStats)
        ensures
            r.total_nodes == self.nodes@.len(),
            r.active_nodes == count_active(self.nodes@),
            r.total_cores == spec_total_cores(self.nodes@),
            r.total_memory_mb == spec_total_memory(self.nodes@),
            self.nodes@.len() == 0 ==> r.average_load_milli == 0 && r.availability_milli == 0,
            self.nodes@.len() >= 1 ==> r.average_load_milli == spec_total_load(self.nodes@) / (
            self.nodes@.len() as int) && r.availability_milli == count_active(self.nodes@) * 1000
                / (self.nodes@.len() as int),
    {
        broadcast use vstd::seq_lib::group_filter_ensures;

        let ghost p = |n: ClusterNode| node_active(n);
        let mut active: usize = 0;
        let mut cores: u64 = 0;
        let mut memory: u64 = 0;
        let mut load: u64 = 0;
        let mut i: usize = 0;
        let n = self.nodes.len();
        while i < n
            invariant
                i <= n,
                n == self.nodes@.len(),
                active == self.nodes@.take(i as int).filter(p).len(),
                cores == spec_total_cores(self.nodes@.take(i as int)),
                memory == spec_total_memory(self.nodes@.take(i as int)),
                load == spec_total_load(self.nodes@.take(i as int)),
                active <= i,
                p == |n: ClusterNode| node_active(n),
            decreases n - i,
        {
            proof {
                assert(self.nodes@.take(i + 1 as int) =~= self.nodes@.take(i as int).push(
                    self.nodes@[i as int],
                ));
                assert(self.nodes@.take(i + 1 as int).drop_last() =~= self.nodes@.take(i as int));
                self.nodes@.take(i as int).lemma_filter_push(self.nodes@[i as int], p);
            }
            let node = &self.nodes[i];
            match node.status {
                NodeStatus::Active => {
                    active = active + 1;
                },
                _ => {},
            }
            cores = cores.saturating_add(node.capabilities.cpu_cores as u64);
            memory = memory.saturating_add(node.capabilities.memory_mb);
            load = load.saturating_add(node.load_milli as u64);
            i = i + 1;
        }
        proof {
            assert(self.nodes@.take(n as int) =~= self.nodes@);
        }
        let total = self.nodes.len();
        let average_load_milli = if total == 0 {
            0
        } else {
            load / (total as u64)
        };
        let availability_milli = if total == 0 {
            0
        } else {
            proof {
                assert((active as int) * 1000 / (total as int) <= 1000) by (nonlinear_arith)
                    requires
                        1 <= total,
                        0 <= active <= total,
                ;
                assert((active as int) * 1000 / (total as int) >= 0) by (nonlinear_arith)
                    requires
                        1 <= total,
                        0 <= active,
                ;
            }
            ((active as u128) * 1000 / (total as u128)) as u64
        };
        ClusterStats {
            total_nodes: total,
            active_nodes: active,
            total_cores: cores,
            total_memory_mb: memory,
            average_load_milli,
            availability_milli,
        }
    }

    /// Set the load of the node with the given identifier, in thousandths;
    /// an unknown identifier changes nothing.
    pub fn update_node_load(&mut self, node_id: &String, load_milli: u32) -> (r: Result<
        (),
        ParallelError,
    >)
        requires
            old(self).wf(),
        ensures
            final(self).wf(),
            r is Ok,
            final(self).nodes@.len() == old(self).nodes@.len(),
            forall|i: int|
                0 <= i < final(self).nodes@.len() && (#[trigger] old(self).nodes@[i]).id@
                    != node_id@ ==> final(self).nodes@[i] == old(self).nodes@[i],
            forall|i: int|
                0 <= i < final(self).nodes@.len() && (#[trigger] old(self).nodes@[i]).id@
                    == node_id@ ==> final(self).nodes@[i].load_milli == load_milli
                    && final(self).nodes@[i].id@ == old(self).nodes@[i].id@,
    {
        let slot = self.find_node(node_id);
        match slot {
            Some(i) => {
                let ghost pre = self.nodes@;
                let mut node = self.nodes.remove(i);
                node.load_milli = load_milli;
                self.nodes.insert(i, node);
                proof {
                    assert(self.nodes@ =~= pre.update(i as int, self.nodes@[i as int]));
                    assert forall|q: int|
                        0 <= q < self.nodes@.len() && (#[trigger] pre[q]).id@
                            != node_id@ implies self.nodes@[q] == pre[q] by {
                        assert(q != i);
                    }
                    assert forall|q: int|
                        0 <= q < self.nodes@.len() && (#[trigger] pre[q]).id@
                            == node_id@ implies self.nodes@[q].load_milli == load_milli
                        && self.nodes@[q].id@ == pre[q].id@ by {
                        if q != i {
                            assert(false);
                        }
                    }
                }
                Ok(())
            },
            None => Ok(()),
        }
    }
}

/// Compare two strings by their characters.
fn string_eq(a: &String, b: &String) -> (r: bool)
    ensures
        r == (a@ == b@),
{
    *a == *b
}

/// How the load balancer picks among the active nodes.
#[derive(Clone, Copy, Debug, PartialEq, Eq, Structural)]
pub enum LoadBalancingStrategy {
    RoundRobin,
    LeastLoaded,
    WeightedRoundRobin,
    Capability,
}

/// What a task demands of a node.
#[derive(Clone, Copy, Debug, PartialEq, Eq, Structural)]
pub struct TaskRequirements {
    pub cpu_cores: usize,
    pub memory_mb: u64,
}

/// Node `a` outweighs node `b`: it offers more cores per unit of load
/// (dampened by a tenth so idle nodes stay comparable), compared without
/// division.
pub open spec fn weight_gt(a: ClusterNode, b: ClusterNode) -> bool {
    a.capabilities.cpu_cores * (b.load_milli + 100) > b.capabilities.cpu_cores * (a.load_milli
        + 100)
}

/// Whether a node satisfies a task's requirements with headroom: enough
/// cores, enough memory, and a load under eight tenths.
pub open spec fn meets_requirements(n: ClusterNode, req: TaskRequirements) -> bool {
    &&& n.capabilities.cpu_cores >= req.cpu_cores
    &&& n.capabilities.memory_mb >= req.memory_mb
    &&& n.load_milli < 800
}

/// Picks a node for a task from a cluster's active nodes.
pub struct LoadBalancer {
    pub strategy: LoadBalancingStrategy,
}

impl LoadBalancer {
    /// Build a balancer; the default strategy picks the least-loaded node.
    pub fn new(strategy: Option<LoadBalancingStrategy>) -> (r: LoadBalancer)
        ensures
            strategy matches Some(s) ==> r.strategy == s,
            strategy is None ==> r.strategy == LoadBalancingStrategy::LeastLoaded,
    {
        LoadBalancer {
            strategy: match strategy {
                Some(s) => s,
                None => LoadBalancingStrategy::LeastLoaded,
            },
        }
    }

    /// Pick a node for a task among the cluster's active nodes: none when no
    /// node is active; otherwise, by strategy, the first active node
    /// (round-robin seed), the first least-loaded active node, the first
    /// heaviest-weighted active node, or the first active node meeting the
    /// requirements (the first active one when none does or no requirements
    /// were given).
    pub fn select_node(&self, cluster: &ClusterManager, task_requirements: Option<
        TaskRequirements,
    >) -> (r: Option<String>)
        ensures
            r is None <==> (forall|i: int|
                0 <= i < cluster.nodes@.len() ==> !node_active(#[trigger] cluster.nodes@[i])),
            r matches Some(id) ==> exists|i: int|
                0 <= i < cluster.nodes@.len() && node_active(#[trigger] cluster.nodes@[i]) && id@
                    == cluster.nodes@[i].id@ && strategy_picks(
                    self.strategy,
                    cluster.nodes@,
                    i,
                    task_requirements,
                ),
    {
        let first = first_active(&cluster.nodes);
        let seed = match first {
            Some(k) => k,
            None => {
                return None;
            },
        };
        let chosen: usize = match self.strategy {
            LoadBalancingStrategy::RoundRobin => seed,
            LoadBalancingStrategy::LeastLoaded => pick_least_loaded(&cluster.nodes, seed),
            LoadBalancingStrategy::WeightedRoundRobin => pick_weighted(&cluster.nodes, seed),
            LoadBalancingStrategy::Capability => {
                match task_requirements {
                    None => seed,
                    Some(req) => pick_capability(&cluster.nodes, seed, req),
                }
            },
        };
        proof {
            assert(strategy_picks(
                self.strategy,
                cluster.nodes@,
                chosen as int,
                task_requirements,
            ));
        }
        Some(cluster.nodes[chosen].id.clone())
    }
}

/// What each strategy demands of the picked index `i` among the nodes `ns`.
pub open spec fn strategy_picks(
    strategy: LoadBalancingStrategy,
    ns: Seq<ClusterNode>,
    i: int,
    req: Option<TaskRequirements>,
) -> bool {
    match strategy {
        LoadBalancingStrategy::RoundRobin => first_active_pick(ns, i),
        LoadBalancingStrategy::LeastLoaded => least_loaded_pick(ns, i),
        LoadBalancingStrategy::WeightedRoundRobin => weighted_pick(ns, i),
        LoadBalancingStrategy::Capability => match req {
            None => first_active_pick(ns, i),
            Some(rq) => capability_pick(ns, i, rq),
        },
    }
}

/// `i` is the first active index.
pub open spec fn first_active_pick(ns: Seq<ClusterNode>, i: int) -> bool {
    forall|j: int| 0 <= j < i ==> !node_active(#[trigger] ns[j])
}

/// `i` is the first least-loaded active index.
pub open spec fn least_loaded_pick(ns: Seq<ClusterNode>, i: int) -> bool {
    &&& forall|j: int|
        0 <= j < ns.len() && node_active(#[trigger] ns[j]) ==> ns[i].load_milli <= ns[j].load_milli
    &&& forall|j: int| 0 <= j < i && node_active(#[trigger] ns[j]) ==> ns[i].load_milli < ns[j].load_milli
}

/// `i` is the first heaviest-weighted active index.
pub open spec fn weighted_pick(ns: Seq<ClusterNode>, i: int) -> bool {
    &&& forall|j: int|
        0 <= j < ns.len() && node_active(#[trigger] ns[j]) ==> !weight_gt(ns[j], ns[i])
    &&& forall|j: int| 0 <= j < i && node_active(#[trigger] ns[j]) ==> weight_gt(ns[i], ns[j])
}

/// `i` is the first active index meeting the requirements, or the first
/// active index when no active node meets them.
pub open spec fn capability_pick(ns: Seq<ClusterNode>, i: int, req: TaskRequirements) -> bool {
    if exists|q: int| 0 <= q < ns.len() && node_active(#[trigger] ns[q]) && meets_requirements(ns[q], req) {
        meets_requirements(ns[i], req) && forall|j: int|
            0 <= j < i && node_active(#[trigger] ns[j]) ==> !meets_requirements(ns[j], req)
    } else {
        first_active_pick(ns, i)
    }
}

/// The first least-loaded active index, scanning from the first active one.
fn pick_least_loaded(nodes: &Vec<ClusterNode>, seed: usize) -> (r: usize)
    requires
        seed < nodes@.len(),
        node_active(nodes@[seed as int]),
        forall|j: int| 0 <= j < seed ==> !node_active(#[trigger] nodes@[j]),
    ensures
        r < nodes@.len(),
        node_active(nodes@[r as int]),
        least_loaded_pick(nodes@, r as int),
{
    let n = nodes.len();
    let mut best: usize = seed;
    let mut i: usize = seed + 1;
    while i < n
        invariant
            n == nodes@.len(),
            seed <= best < i,
            i <= n,
            node_active(nodes@[best as int]),
            forall|j: int|
                0 <= j < i && node_active(#[trigger] nodes@[j]) ==> nodes@[best as int].load_milli
                    <= nodes@[j].load_milli,
            forall|j: int|
                0 <= j < best && node_active(#[trigger] nodes@[j])
                    ==> nodes@[best as int].load_milli < nodes@[j].load_milli,
            forall|j: int| 0 <= j < seed ==> !node_active(#[trigger] nodes@[j]),
        decreases n - i,
    {
        let is_active = match nodes[i].status {
            NodeStatus::Active => true,
            _ => false,
        };
        if is_active && nodes[i].load_milli < nodes[best].load_milli {
            best = i;
        }
        i = i + 1;
    }
    best
}

/// The first heaviest-weighted active index, scanning from the first active
/// one.
fn pick_weighted(nodes: &Vec<ClusterNode>, seed: usize) -> (r: usize)
    requires
        seed < nodes@.len(),
        node_active(nodes@[seed as int]),
        forall|j: int| 0 <= j < seed ==> !node_active(#[trigger] nodes@[j]),
    ensures
        r < nodes@.len(),
        node_active(nodes@[r as int]),
        weighted_pick(nodes@, r as int),
{
    let n = nodes.len();
    let mut best: usize = seed;
    let mut i: usize = seed + 1;
    while i < n
        invariant
            n == nodes@.len(),
            seed <= best < i,
            i <= n,
            node_active(nodes@[best as int]),
            forall|j: int|
                0 <= j < i && node_active(#[trigger] nodes@[j]) ==> !weight_gt(
                    nodes@[j],
                    nodes@[best as int],
                ),
            forall|j: int|
                0 <= j < best && node_active(#[trigger] nodes@[j]) ==> weight_gt(
                    nodes@[best as int],
                    nodes@[j],
                ),
            forall|j: int| 0 <= j < seed ==> !node_active(#[trigger] nodes@[j]),
        decreases n - i,
    {
        let is_active = match nodes[i].status {
            NodeStatus::Active => true,
            _ => false,
        };
        if is_active && node_outweighs(&nodes[i], &nodes[best]) {
            proof {
                let ns = nodes@;
                let nb = ns[best as int];
                let ni = ns[i as int];
                assert forall|j: int|
                    0 <= j < i + 1 && node_active(#[trigger] ns[j]) implies !weight_gt(
                    ns[j],
                    ni,
                ) by {
                    if j < i {
                        if weight_gt(ns[j], ni) {
                            lemma_weight_gt_trans(ns[j], ni, nb);
                        }
                    }
                }
                assert forall|j: int|
                    0 <= j < i && node_active(#[trigger] ns[j]) implies weight_gt(ni, ns[j]) by {
                    if j < best {
                        lemma_weight_gt_trans(ni, nb, ns[j]);
                    } else if j > best {
                        lemma_weight_gt_shift(ni, nb, ns[j]);
                    }
                }
            }
            best = i;
        }
        i = i + 1;
    }
    best
}

/// The first active index meeting the requirements, or the first active one
/// when none does.
fn pick_capability(nodes: &Vec<ClusterNode>, seed: usize, req: TaskRequirements) -> (r: usize)
    requires
        seed < nodes@.len(),
        node_active(nodes@[seed as int]),
        forall|j: int| 0 <= j < seed ==> !node_active(#[trigger] nodes@[j]),
    ensures
        r < nodes@.len(),
        node_active(nodes@[r as int]),
        capability_pick(nodes@, r as int, req),
{
    let n = nodes.len();
    let mut found: Option<usize> = None;
    let mut i: usize = 0;
    while i < n && found.is_none()
        invariant
            n == nodes@.len(),
            i <= n,
            match found {
                Some(k) => k < n && node_active(nodes@[k as int]) && meets_requirements(
                    nodes@[k as int],
                    req,
                ) && forall|j: int|
                    0 <= j < k && node_active(#[trigger] nodes@[j]) ==> !meets_requirements(
                        nodes@[j],
                        req,
                    ),
                None => forall|j: int|
                    0 <= j < i && node_active(#[trigger] nodes@[j]) ==> !meets_requirements(
                        nodes@[j],
                        req,
                    ),
            },
        decreases n - i, (if found is None {
            1int
        } else {
            0int
        }),
    {
        let node = &nodes[i];
        let is_active = match node.status {
            NodeStatus::Active => true,
            _ => false,
        };
        if is_active && node.capabilities.cpu_cores >= req.cpu_cores && node.capabilities.memory_mb
            >= req.memory_mb && node.load_milli < 800 {
            found = Some(i);
        } else {
            i = i + 1;
        }
    }
    match found {
        Some(k) => k,
        None => seed,
    }
}

/// The index of the first active node, if any node is active.
fn first_active(nodes: &Vec<ClusterNode>) -> (r: Option<usize>)
    ensures
        match r {
            Some(k) => k < nodes@.len() && node_active(nodes@[k as int]) && forall|j: int|
                0 <= j < k ==> !node_active(#[trigger] nodes@[j]),
            None => forall|j: int| 0 <= j < nodes@.len() ==> !node_active(#[trigger] nodes@[j]),
        },
{
    let mut i: usize = 0;
    let n = nodes.len();
    while i < n
        invariant
            i <= n,
            n == nodes@.len(),
            forall|j: int| 0 <= j < i ==> !node_active(#[trigger] nodes@[j]),
        decreases n - i,
    {
        match nodes[i].status {
            NodeStatus::Active => {
                return Some(i);
            },
            _ => {},
        }
        i = i + 1;
    }
    None
}

/// Node `a` outweighs node `b`.
fn node_outweighs(a: &ClusterNode, b: &ClusterNode) -> (r: bool)
    ensures
        r == weight_gt(*a, *b),
{
    proof {
        vstd::arithmetic::mul::lemma_mul_upper_bound(
            a.capabilities.cpu_cores as int,
            usize::MAX as int,
            b.load_milli + 100,
            u32::MAX + 100,
        );
        vstd::arithmetic::mul::lemma_mul_upper_bound(
            b.capabilities.cpu_cores as int,
            usize::MAX as int,
            a.load_milli + 100,
            u32::MAX + 100,
        );
    }
    let lhs = (a.capabilities.cpu_cores as u128) * ((b.load_milli as u128) + 100);
    let rhs = (b.capabilities.cpu_cores as u128) * ((a.load_milli as u128) + 100);
    lhs > rhs
}

/// The weight order is transitive.
proof fn lemma_weight_gt_trans(a: ClusterNode, b: ClusterNode, c: ClusterNode)
    requires
        weight_gt(a, b),
        weight_gt(b, c),
    ensures
        weight_gt(a, c),
{
    let wa = a.capabilities.cpu_cores as int;
    let wb = b.capabilities.cpu_cores as int;
    let wc = c.capabilities.cpu_cores as int;
    let la = a.load_milli + 100;
    let lb = b.load_milli + 100;
    let lc = c.load_milli + 100;
    assert(wa * lc > wc * la) by (nonlinear_arith)
        requires
            wa * lb > wb * la,
            wb * lc > wc * lb,
            la >= 100,
            lb >= 100,
            lc >= 100,
            wa >= 0,
            wb >= 0,
            wc >= 0,
    ;
}

/// A node that outweighs `b` also outweighs anything `b` is not outweighed
/// by.
proof fn lemma_weight_gt_shift(a: ClusterNode, b: ClusterNode, c: ClusterNode)
    requires
        weight_gt(a, b),
        !weight_gt(c, b),
    ensures
        weight_gt(a, c),
{
    let wa = a.capabilities.cpu_cores as int;
    let wb = b.capabilities.cpu_cores as int;
    let wc = c.capabilities.cpu_cores as int;
    let la = a.load_milli + 100;
    let lb = b.load_milli + 100;
    let lc = c.load_milli + 100;
    assert(wa * lc > wc * la) by (nonlinear_arith)
        requires
            wa * lb > wb * la,
            wc * lb <= wb * lc,
            la >= 100,
            lb >= 100,
            lc >= 100,
            wa >= 0,
            wb >= 0,
            wc >= 0,
    ;
}

} // verus!
