use bmtop::rdma::{parse_ibv_devinfo, parse_rdma_ctl};

const SAMPLE_DEVINFO: &str = "\
hca_id: rdma_en2
    transport:          InfiniBand (0)
    node_guid:          0011:2233:4455:6677
    port:   1
        state:          PORT_ACTIVE (4)
        active_mtu:     4096 (5)
        link_layer:     Ethernet
";

#[test]
fn disabled_wins_over_enabled_substring() {
    let status = parse_rdma_ctl("rdma is not enabled", String::new);
    assert!(!status.available);
    assert_eq!(status.status, "Disabled");
    let status = parse_rdma_ctl("RDMA: Disabled", String::new);
    assert!(!status.available);
}

#[test]
fn enabled_parses_devices() {
    let status = parse_rdma_ctl("rdma: enabled", || SAMPLE_DEVINFO.to_string());
    assert!(status.available);
    assert_eq!(status.devices.len(), 1);
    let device = &status.devices[0];
    assert_eq!(device.name, "rdma_en2");
    assert_eq!(device.interface, "en2");
    assert_eq!(device.transport, "InfiniBand");
    assert_eq!(device.node_guid, "0011:2233:4455:6677");
    assert_eq!(device.port_state, "PORT_ACTIVE");
    assert_eq!(device.active_mtu, 4096);
    assert_eq!(device.link_layer, "Ethernet");
}

#[test]
fn unknown_output_passes_through() {
    let status = parse_rdma_ctl("weird text", String::new);
    assert!(!status.available);
    assert_eq!(status.status, "weird text");
}

#[test]
fn devinfo_is_only_asked_for_when_enabled() {
    let status = parse_rdma_ctl("  RDMA: DISABLED  ", || panic!("devinfo must not run"));
    assert_eq!(status.status, "Disabled");
    let status = parse_rdma_ctl("  odd  \n", || panic!("devinfo must not run"));
    assert_eq!(status.status, "odd");
}

#[test]
fn later_ports_overwrite_and_orphan_fields_are_ignored() {
    let text = "state: PORT_DOWN (1)
hca_id: mlx5_0
    active_mtu: junk
hca_id:: rdma_en7
    state: PORT_DOWN (1)
    state: PORT_ACTIVE (4)
";
    let devices = parse_ibv_devinfo(text);
    assert_eq!(devices.len(), 2);
    assert_eq!(devices[0].name, "mlx5_0");
    assert_eq!(devices[0].interface, "");
    assert_eq!(devices[0].active_mtu, 0);
    assert_eq!(devices[1].name, "rdma_en7");
    assert_eq!(devices[1].interface, "en7");
    assert_eq!(devices[1].port_state, "PORT_ACTIVE");
}
