//! The configuration that the overlay consumes.

use crate::error::{IpdmError, IpdmErrorView};
use vstd::prelude::*;
use vstd::string::*;

verus! {

/// What the embedding process configures.
#[derive(Debug)]
pub struct IpdmConfig {
    pub listen_address: String,
    pub bootstrap_peers: Vec<String>,
    /// The heartbeat interval, in milliseconds.
    pub heartbeat_interval: u64,
    /// The largest wire message, in bytes.
    pub max_transmit_size: usize,
    pub mesh_n_low: usize,
    pub mesh_n_high: usize,
    pub mesh_outbound_min: usize,
    pub mesh_n_lazy: usize,
}

/// The mesh parameters of a configuration that was found valid.
#[derive(Debug, Clone, Copy, PartialEq, Eq, Structural)]
pub struct GossipsubConfig {
    pub heartbeat_interval: u64,
    pub max_transmit_size: usize,
    pub mesh_n_low: usize,
    pub mesh_n_high: usize,
    pub mesh_outbound_min: usize,
    pub mesh_n_lazy: usize,
}

impl GossipsubConfig {
    /// The mesh bounds are ordered: `mesh_outbound_min <= mesh_n_low <= mesh_n_high`.
    pub open spec fn wf(&self) -> bool {
        self.mesh_outbound_min <= self.mesh_n_low <= self.mesh_n_high
    }
}

/// The detail of the error for an outbound minimum above the lower bound.
pub open spec fn outbound_above_low_text() -> Seq<char> {
    "mesh_outbound_min exceeds mesh_n_low"@
}

/// The detail of the error for a lower bound above the upper bound.
pub open spec fn low_above_high_text() -> Seq<char> {
    "mesh_n_low exceeds mesh_n_high"@
}

impl Clone for IpdmConfig {
    fn clone(&self) -> (c: IpdmConfig)
        ensures
            c.listen_address@ == self.listen_address@,
            c.bootstrap_peers@.len() == self.bootstrap_peers@.len(),
            forall|i: int|
                0 <= i < self.bootstrap_peers@.len() ==> c.bootstrap_peers@[i]@
                    == self.bootstrap_peers@[i]@,
            c.params() == self.params(),
    {
        let mut peers: Vec<String> = Vec::new();
        let mut i: usize = 0;
        while i < self.bootstrap_peers.len()
            invariant
                i <= self.bootstrap_peers@.len(),
                peers@.len() == i,
                forall|j: int| 0 <= j < i ==> peers@[j]@ == self.bootstrap_peers@[j]@,
            decreases self.bootstrap_peers@.len() - i,
        {
            peers.push(self.bootstrap_peers[i].clone());
            i += 1;
        }
        IpdmConfig {
            listen_address: self.listen_address.clone(),
            bootstrap_peers: peers,
            heartbeat_interval: self.heartbeat_interval,
            max_transmit_size: self.max_transmit_size,
            mesh_n_low: self.mesh_n_low,
            mesh_n_high: self.mesh_n_high,
            mesh_outbound_min: self.mesh_outbound_min,
            mesh_n_lazy: self.mesh_n_lazy,
        }
    }
}

impl Default for IpdmConfig {
    fn default() -> (c: IpdmConfig)
        ensures
            c.listen_address@ == "/ip4/0.0.0.0/tcp/0"@,
            c.bootstrap_peers@.len() == 0,
            c.heartbeat_interval == 1000,
            c.max_transmit_size == 65536,
            c.mesh_n_low == 4,
            c.mesh_n_high == 12,
            c.mesh_outbound_min == 2,
            c.mesh_n_lazy == 4,
            c.valid(),
    {
        IpdmConfig {
            listen_address: String::from_str("/ip4/0.0.0.0/tcp/0"),
            bootstrap_peers: Vec::new(),
            heartbeat_interval: 1000,
            max_transmit_size: 65536,
            mesh_n_low: 4,
            mesh_n_high: 12,
            mesh_outbound_min: 2,
            mesh_n_lazy: 4,
        }
    }
}

impl IpdmConfig {
    /// The mesh bounds are ordered: `mesh_outbound_min <= mesh_n_low <= mesh_n_high`.
    pub open spec fn valid(&self) -> bool {
        self.mesh_outbound_min <= self.mesh_n_low <= self.mesh_n_high
    }

    /// The mesh parameters that the configuration stands for.
    pub open spec fn params(&self) -> GossipsubConfig {
        GossipsubConfig {
            heartbeat_interval: self.heartbeat_interval,
            max_transmit_size: self.max_transmit_size,
            mesh_n_low: self.mesh_n_low,
            mesh_n_high: self.mesh_n_high,
            mesh_outbound_min: self.mesh_outbound_min,
            mesh_n_lazy: self.mesh_n_lazy,
        }
    }

    /// Checks the mesh bounds. The outbound minimum is checked first.
    pub fn validate(&self) -> (r: Result<(), IpdmError>)
        ensures
            r is Ok <==> self.valid(),
            r matches Err(e) ==> e@ == (if self.mesh_outbound_min > self.mesh_n_low {
                IpdmErrorView::Config(outbound_above_low_text())
            } else {
                IpdmErrorView::Config(low_above_high_text())
            }),
    {
        if self.mesh_outbound_min > self.mesh_n_low {
            Err(IpdmError::Config(String::from_str("mesh_outbound_min exceeds mesh_n_low")))
        } else if self.mesh_n_low > self.mesh_n_high {
            Err(IpdmError::Config(String::from_str("mesh_n_low exceeds mesh_n_high")))
        } else {
            Ok(())
        }
    }

    /// The mesh parameters of a valid configuration.
    pub fn to_gossipsub_config(&self) -> (g: GossipsubConfig)
        requires
            self.valid(),
        ensures
            g == self.params(),
            g.wf(),
    {
        GossipsubConfig {
            heartbeat_interval: self.heartbeat_interval,
            max_transmit_size: self.max_transmit_size,
            mesh_n_low: self.mesh_n_low,
            mesh_n_high: self.mesh_n_high,
            mesh_outbound_min: self.mesh_outbound_min,
            mesh_n_lazy: self.mesh_n_lazy,
        }
    }
}

} // verus!
