use bmtop::extras::{battery_from_raw, format_link_speed, EthernetLink, LinkInfo, WifiLink};
use bmtop::format::format_interval;

#[test]
fn link_speed_formats_match_mactop() {
    assert_eq!(format_link_speed(10_000), "10GbE");
    assert_eq!(format_link_speed(1000), "1GbE");
    assert_eq!(format_link_speed(2500), "2.5GbE");
    assert_eq!(format_link_speed(100), "100Mbps");
    assert_eq!(format_link_speed(0), "--");
}

#[test]
fn best_label_prefers_ethernet_on_tie() {
    let link = LinkInfo {
        ethernet: vec![EthernetLink { name: "en0".into(), speed_mbps: 1000, is_up: true }],
        wifi: Some(WifiLink {
            name: "en1".into(),
            generation: "Wi-Fi 6".into(),
            phy_mode: "802.11ax".into(),
            tx_rate_mbps: 1000,
            is_connected: true,
        }),
    };
    assert_eq!(link.best_label(), Some("1GbE".to_string()));
}

#[test]
fn best_label_falls_back_to_wifi() {
    let link = LinkInfo {
        ethernet: vec![EthernetLink { name: "en0".into(), speed_mbps: 0, is_up: false }],
        wifi: Some(WifiLink {
            name: "en1".into(),
            generation: "Wi-Fi 6".into(),
            phy_mode: "802.11ax".into(),
            tx_rate_mbps: 866,
            is_connected: true,
        }),
    };
    assert_eq!(link.best_label(), Some("Wi-Fi 6 @ 866Mbps".to_string()));
    assert_eq!(LinkInfo::default().best_label(), None);
}

#[test]
fn best_label_covers_every_wifi_shape() {
    let wifi = |generation: &str, rate: u32, connected: bool| LinkInfo {
        ethernet: vec![
            EthernetLink { name: "en0".into(), speed_mbps: 2500, is_up: false },
            EthernetLink { name: "en2".into(), speed_mbps: 100, is_up: true },
        ],
        wifi: Some(WifiLink {
            name: "en1".into(),
            generation: generation.into(),
            phy_mode: String::new(),
            tx_rate_mbps: rate,
            is_connected: connected,
        }),
    };
    assert_eq!(wifi("", 300, true).best_label(), Some("300Mbps".to_string()));
    assert_eq!(wifi("Wi-Fi 7", 0, true).best_label(), Some("100Mbps".to_string()));
    assert_eq!(wifi("Wi-Fi 7", 50, true).best_label(), Some("100Mbps".to_string()));
    assert_eq!(wifi("Wi-Fi 7", 5000, false).best_label(), Some("100Mbps".to_string()));
    let lone = LinkInfo {
        ethernet: Vec::new(),
        wifi: Some(WifiLink {
            name: "en1".into(),
            generation: "Wi-Fi 5".into(),
            phy_mode: String::new(),
            tx_rate_mbps: 0,
            is_connected: true,
        }),
    };
    assert_eq!(lone.best_label(), Some("Wi-Fi 5".to_string()));
}

#[test]
fn one_decimal_speeds_round_like_float_formatting() {
    for mbps in 1000u64..10_000 {
        let expected = if mbps % 1000 == 0 {
            format!("{}GbE", mbps / 1000)
        } else {
            format!("{:.1}GbE", mbps as f64 / 1000.0)
        };
        assert_eq!(format_link_speed(mbps), expected, "mbps {mbps}");
    }
}

#[test]
fn interval_formatting_covers_sub_second_rates() {
    assert_eq!(format_interval(1_000), "1.0s");
    assert_eq!(format_interval(2_500), "2.5s");
    assert_eq!(format_interval(250), "250ms");
    assert_eq!(format_interval(60_000), "60.0s");
}

#[test]
fn interval_formatting_matches_float_formatting_everywhere() {
    let mut samples: Vec<u64> = (0u64..100_000).collect();
    let mut x: u64 = 0x9E37_79B9_7F4A_7C15;
    for _ in 0..60_000 {
        x ^= x << 13;
        x ^= x >> 7;
        x ^= x << 17;
        samples.push(x);
        samples.push(x >> 11);
        samples.push(x >> 40);
    }
    samples.extend([u64::MAX, u64::MAX - 1, 1 << 53, (1 << 53) + 1, (1 << 54) + 3, 9_007_199_254_740_993_000]);
    for millis in samples {
        let expected = if millis % 1_000 == 0 || millis >= 1_000 {
            format!("{:.1}s", millis as f64 / 1_000.0)
        } else {
            format!("{millis}ms")
        };
        assert_eq!(format_interval(millis), expected, "millis {millis}");
    }
}

#[test]
fn battery_reading_keeps_only_a_valid_charge() {
    assert_eq!(battery_from_raw(0, 50, 1, 1), None);
    let full = battery_from_raw(1, 100, 0, 1).unwrap();
    assert_eq!(full.percent, Some(100));
    assert!(!full.charging && full.on_ac);
    assert_eq!(battery_from_raw(1, -1, 1, 0).unwrap().percent, None);
    assert_eq!(battery_from_raw(1, 101, 1, 0).unwrap().percent, None);
}
