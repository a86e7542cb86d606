//! The limits that the node sets on its peers.

use vstd::prelude::*;

verus! {

/// A network of addresses: a prefix of an address of either family.
#[derive(Clone, Copy, Debug, PartialEq, Eq, Hash, Structural)]
pub enum IpNet {
    /// The addresses of the older family whose first `prefix_len` bits
    /// are those of the address.
    V4(u32, u8),
    /// The addresses of the newer family whose first `prefix_len` bits
    /// are those of the address.
    V6(u128, u8),
}

/// A span of time in seconds.
#[derive(Clone, Copy, Debug, PartialEq, Eq, Hash, Structural)]
pub struct Seconds(pub u64);

/// When and how often the node looks for new peers.
#[derive(Clone, Copy, Debug, PartialEq, Eq, Structural)]
pub struct BootstrapConfig {
    /// How long after its start the node looks first.
    pub start_offset: Seconds,
    /// How long it waits between two looks.
    pub period: Seconds,
}

impl Default for BootstrapConfig {
    fn default() -> (r: BootstrapConfig)
        ensures
            r == (BootstrapConfig { start_offset: Seconds(5), period: Seconds(600) }),
    {
        BootstrapConfig { start_offset: Seconds(5), period: Seconds(10 * 60) }
    }
}

/// The limits on peers.
#[derive(Clone, Debug, PartialEq, Eq)]
pub struct Config {
    /// A direct (not relayed) peer can only connect once in this period.
    pub direct_connection_timeout: Seconds,
    /// A relayed peer can only connect once in this period.
    pub relay_connection_timeout: Seconds,
    /// Maximum number of direct (non-relayed) peers.
    pub max_inbound_direct_peers: usize,
    /// Maximum number of relayed peers.
    pub max_inbound_relayed_peers: usize,
    /// How long to prevent evicted peers from reconnecting.
    pub eviction_timeout: Seconds,
    /// The networks from which peers may connect.
    pub ip_whitelist: Vec<IpNet>,
    pub bootstrap: BootstrapConfig,
}

impl Config {
    /// The limits with the given numbers of peers, the usual timeouts, and
    /// every address of either family allowed.
    pub fn new(
        max_inbound_direct_peers: usize,
        max_inbound_relay_peers: usize,
        bootstrap: BootstrapConfig,
    ) -> (r: Config)
        ensures
            r.direct_connection_timeout == Seconds(30),
            r.relay_connection_timeout == Seconds(10),
            r.max_inbound_direct_peers == max_inbound_direct_peers,
            r.max_inbound_relayed_peers == max_inbound_relay_peers,
            r.eviction_timeout == Seconds(900),
            r.ip_whitelist@ == seq![
                IpNet::V6(0, 0),
                IpNet::V4(0, 0),
            ],
            r.bootstrap == bootstrap,
    {
        let mut ip_whitelist: Vec<IpNet> = Vec::new();
        ip_whitelist.push(IpNet::V6(0, 0));
        ip_whitelist.push(IpNet::V4(0, 0));
        proof {
            assert(ip_whitelist@ =~= seq![
                IpNet::V6(0, 0),
                IpNet::V4(0, 0),
            ]);
        }
        Config {
            direct_connection_timeout: Seconds(30),
            relay_connection_timeout: Seconds(10),
            max_inbound_direct_peers,
            max_inbound_relayed_peers: max_inbound_relay_peers,
            ip_whitelist,
            bootstrap,
            eviction_timeout: Seconds(15 * 60),
        }
    }
}

} // verus!
