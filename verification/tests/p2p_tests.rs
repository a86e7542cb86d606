use stark_node::p2p::{BootstrapConfig, Config, IpNet, Seconds};

#[test]
fn bootstrap_defaults() {
    let bootstrap = BootstrapConfig::default();
    assert_eq!(bootstrap.start_offset, Seconds(5));
    assert_eq!(bootstrap.period, Seconds(600));
}

#[test]
fn config_defaults() {
    let bootstrap = BootstrapConfig { start_offset: Seconds(1), period: Seconds(2) };
    let cfg = Config::new(10, 20, bootstrap);
    assert_eq!(cfg.direct_connection_timeout, Seconds(30));
    assert_eq!(cfg.relay_connection_timeout, Seconds(10));
    assert_eq!(cfg.max_inbound_direct_peers, 10);
    assert_eq!(cfg.max_inbound_relayed_peers, 20);
    assert_eq!(cfg.eviction_timeout, Seconds(900));
    assert_eq!(cfg.ip_whitelist, vec![IpNet::V6(0, 0), IpNet::V4(0, 0)]);
    assert_eq!(cfg.bootstrap, bootstrap);
}
