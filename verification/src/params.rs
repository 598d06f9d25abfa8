//! The configuration of a replica, fixed for its lifetime.

use vstd::prelude::*;

verus! {

/// What a replica is told about its subnet when it is built.
#[derive(Clone, Copy, Debug, PartialEq, Eq, Structural)]
pub struct SubnetParams {
    /// Number of replicas in the subnet.
    pub total_nodes_number: u8,
    /// Number of replicas that may be byzantine.
    pub byzantine_nodes_number: u8,
    /// Number of replicas that may disagree on the fast path.
    pub disagreeing_nodes_number: u8,
    /// Whether the replica issues fast-path shares rather than classic ones.
    pub fast_internet_computer_consensus: bool,
    /// How long the notary waits after the first proposal of a round, in
    /// milliseconds.
    pub artifact_delay: u64,
    /// How long the processing loop sleeps when nothing wakes it, in
    /// milliseconds.
    pub artifact_manager_polling_interval: u64,
    /// Size of a block's payload, in bytes.
    pub blocksize: usize,
}

impl SubnetParams {
    pub fn new(n: u8, f: u8, p: u8, cod: bool, d: u64, pi: u64, blocksize: usize) -> (params: Self)
        ensures
            params == (SubnetParams {
                total_nodes_number: n,
                byzantine_nodes_number: f,
                disagreeing_nodes_number: p,
                fast_internet_computer_consensus: cod,
                artifact_delay: d,
                artifact_manager_polling_interval: pi,
                blocksize,
            }),
    {
        Self {
            total_nodes_number: n,
            byzantine_nodes_number: f,
            disagreeing_nodes_number: p,
            fast_internet_computer_consensus: cod,
            artifact_delay: d,
            artifact_manager_polling_interval: pi,
            blocksize,
        }
    }

    /// A configuration makes sense when fewer replicas are byzantine, and
    /// fewer disagree, than there are replicas.
    pub open spec fn valid(&self) -> bool {
        self.byzantine_nodes_number < self.total_nodes_number && self.disagreeing_nodes_number
            < self.total_nodes_number
    }

    /// Decides whether the configuration makes sense.
    pub fn is_valid(&self) -> (valid: bool)
        ensures
            valid == self.valid(),
    {
        self.byzantine_nodes_number < self.total_nodes_number && self.disagreeing_nodes_number
            < self.total_nodes_number
    }

    /// The number of matching shares that make a certificate: 2f + 1.
    pub open spec fn quorum(&self) -> nat {
        (2 * self.byzantine_nodes_number + 1) as nat
    }

    /// The number of matching shares that make a certificate.
    pub fn quorum_size(&self) -> (quorum: usize)
        ensures
            quorum == self.quorum(),
    {
        let f: usize = self.byzantine_nodes_number as usize;
        2 * f + 1
    }
}

} // verus!
