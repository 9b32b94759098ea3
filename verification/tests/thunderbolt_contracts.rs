use bmtop::thunderbolt::{build_tb_buses, render_tb_tree, tb_mode, TbBus, TbDevice, TbSwitchInfo};

fn switch(uid: i64, parent: i64, depth: i32, link: i32, current: i32) -> TbSwitchInfo {
    TbSwitchInfo {
        uid,
        parent_uid: parent,
        depth,
        link_speed: link,
        current_speed: current,
        vendor: if depth > 0 { "Apple Inc.".into() } else { String::new() },
        device: if depth > 0 { "Studio Display".into() } else { String::new() },
    }
}

#[test]
fn buses_group_devices_by_parent_uid() {
    let switches = vec![
        switch(0x25, 0, 0, 12, 0),
        switch(0x31, 0, 0, 12, 0),
        switch(0x99, 0x25, 1, 12, 8),
    ];
    let buses = build_tb_buses(&switches);
    assert_eq!(buses.len(), 2);
    assert_eq!(buses[0].name, "TB4 Bus 5");
    assert!(buses[0].is_active);
    assert_eq!(buses[0].devices.len(), 1);
    assert_eq!(buses[0].devices[0].mode, "TB3");
    assert!(!buses[1].is_active);
    assert!(buses[1].devices.is_empty());
}

#[test]
fn speed_thresholds_map_generations() {
    assert_eq!(tb_mode(14, 0, false), "TB5");
    assert_eq!(tb_mode(12, 0, false), "TB4");
    assert_eq!(tb_mode(8, 0, false), "TB3");
    assert_eq!(tb_mode(0, 0, false), "TB4");
}

#[test]
fn tree_renders_icons_and_branches() {
    let buses = vec![TbBus {
        name: "TB4 Bus 5".into(),
        is_active: true,
        speed_label: "Up to 40 Gb/s".into(),
        devices: vec![TbDevice {
            name: "Studio Display".into(),
            vendor: "Apple Inc.".into(),
            mode: "TB3".into(),
        }],
    }];
    let text = render_tb_tree(&buses, &["en5".to_string()]);
    assert!(text.contains("ϟ TB4 Bus 5 @ Up to 40 Gb/s"));
    assert!(text.contains("  └─ Studio Display (Apple Inc., TB3)"));
    assert!(text.contains("  └─ en5 (peer host)"));
}

#[test]
fn tb5_roots_advertise_eighty_gigabits_and_orphans_are_dropped() {
    let switches = vec![
        switch(-3, 0, 0, 14, 0),
        switch(0x7, 0x42, 2, 14, 0),
        switch(0x8, -3, 1, 0, 14),
        switch(0x9, -3, 1, 12, 0),
    ];
    let buses = build_tb_buses(&switches);
    assert_eq!(buses.len(), 1);
    assert_eq!(buses[0].name, "TB5 Bus 13");
    assert_eq!(buses[0].speed_label, "Up to 80 Gb/s");
    let modes: Vec<&str> = buses[0].devices.iter().map(|d| d.mode.as_str()).collect();
    assert_eq!(modes, vec!["TB5", "TB4"]);
}

#[test]
fn tree_lists_every_device_and_bridge_peer_in_order() {
    let buses = vec![
        TbBus {
            name: "TB4 Bus 1".into(),
            is_active: true,
            speed_label: "Up to 40 Gb/s".into(),
            devices: vec![
                TbDevice { name: "Dock".into(), vendor: String::new(), mode: "TB4".into() },
                TbDevice { name: "Disk".into(), vendor: "ACME".into(), mode: "TB3".into() },
            ],
        },
        TbBus {
            name: "TB4 Bus 2".into(),
            is_active: false,
            speed_label: "Up to 40 Gb/s".into(),
            devices: Vec::new(),
        },
    ];
    let text = render_tb_tree(&buses, &["en5".to_string(), "en6".to_string()]);
    assert_eq!(
        text,
        "ϟ TB4 Bus 1 @ Up to 40 Gb/s\n  ├─ Dock (TB4)\n  └─ Disk (ACME, TB3)\n○ TB4 Bus 2 @ Up to 40 Gb/s\nThunderbolt Bridge:\n  ├─ en5 (peer host)\n  └─ en6 (peer host)"
    );
    assert_eq!(render_tb_tree(&[], &[]), "");
}
