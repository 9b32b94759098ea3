use bmtop::i18n::Language;
use bmtop::rdma::{RdmaDevice, RdmaStatus};
use bmtop::report::{
    flatten_json, hardware_section_label, hardware_sections, redact_json, transport_sections, JsonValue,
};

fn text(value: &str) -> JsonValue {
    JsonValue::Text(value.to_string())
}

fn object(members: Vec<(&str, JsonValue)>) -> Vec<(String, JsonValue)> {
    members.into_iter().map(|(key, value)| (key.to_string(), value)).collect()
}

fn member<'a>(members: &'a [(String, JsonValue)], key: &str) -> &'a JsonValue {
    &members.iter().find(|(name, _)| name == key).expect("member present").1
}

#[test]
fn redaction_masks_serial_uuid_and_addresses() {
    let mut value = object(vec![
        ("device_serialNumber", text("secret")),
        ("controller_address", text("AA:BB:CC:DD:EE:FF")),
        ("platform_UUID", text("0000-1111")),
        ("provisioning_UDID", text("00006031-000C21960A23001C")),
        ("machine_model", text("Mac15,9")),
        ("model", text("Mac")),
    ]);
    redact_json(&mut value);
    assert_eq!(member(&value, "device_serialNumber"), &text("••••••"));
    assert_eq!(member(&value, "controller_address"), &text("••••••"));
    assert_eq!(member(&value, "platform_UUID"), &text("••••••"));
    assert_eq!(member(&value, "provisioning_UDID"), &text("••••••"));
    assert_eq!(member(&value, "machine_model"), &text("Mac15,9"));
    assert_eq!(member(&value, "model"), &text("Mac"));
}

#[test]
fn redaction_reaches_objects_inside_arrays_but_keeps_the_layout() {
    let mut value = object(vec![(
        "SPUSBDataType",
        JsonValue::Array(vec![
            JsonValue::Object(object(vec![
                ("_name", text("hub")),
                ("serial_num", text("X1")),
                ("ports", JsonValue::Number("4".into())),
                ("Device_Serial", JsonValue::Object(object(vec![("inner", text("kept away"))]))),
            ])),
            text("MAC address"),
        ]),
    )]);
    redact_json(&mut value);
    let expected = object(vec![(
        "SPUSBDataType",
        JsonValue::Array(vec![
            JsonValue::Object(object(vec![
                ("_name", text("hub")),
                ("serial_num", text("••••••")),
                ("ports", JsonValue::Number("4".into())),
                ("Device_Serial", text("••••••")),
            ])),
            text("MAC address"),
        ]),
    )]);
    assert_eq!(value, expected);
}

#[test]
fn flattened_json_indents_members_and_headings() {
    let value = JsonValue::Object(object(vec![
        ("_name", text("Top")),
        ("machine_model", text("Mac15,9")),
        ("cores", JsonValue::Number("12".into())),
        ("sub", JsonValue::Object(object(vec![("a", JsonValue::Bool(true))]))),
        (
            "list",
            JsonValue::Array(vec![
                JsonValue::Object(object(vec![("_name", text("one")), ("x", JsonValue::Null)])),
                text("plain"),
            ]),
        ),
    ]));
    let expected = format!(
        "machine_model{}Mac15,9\ncores{}12\nsub\n  a{}true\nlist\n  one\n    x{}--\n\n  #2\n    plain\n\n",
        " ".repeat(17),
        " ".repeat(25),
        " ".repeat(27),
        " ".repeat(25),
    );
    assert_eq!(flatten_json(&value), expected);
}

#[test]
fn long_keys_keep_two_spaces_before_their_value() {
    let key = "battery_health_maximum_capacity";
    let value = JsonValue::Object(object(vec![(key, text("92%"))]));
    assert_eq!(flatten_json(&value), format!("{key}  92%\n"));
    assert_eq!(flatten_json(&text("alone")), "alone\n");
    assert_eq!(flatten_json(&JsonValue::Array(Vec::new())), "");
}

#[test]
fn hardware_sections_follow_the_page_order_and_language() {
    let report = object(vec![
        ("SPAudioDataType", JsonValue::Array(Vec::new())),
        ("SPHardwareDataType", JsonValue::Array(vec![JsonValue::Object(object(vec![("chip_type", text("Apple M3 Max"))]))])),
        ("SPZetaDataType", JsonValue::Null),
        ("SPAlphaDataType", JsonValue::Null),
        ("SPMemoryDataType", JsonValue::Array(Vec::new())),
    ]);
    let chinese = hardware_sections(&report, Language::Chinese);
    let names: Vec<&str> = chinese.iter().map(|section| section.name.as_str()).collect();
    assert_eq!(names, vec!["硬件概览", "内存", "音频", "SPAlphaDataType", "SPZetaDataType"]);
    assert_eq!(chinese[0].body, format!("#1\n  chip_type{}Apple M3 Max\n\n", " ".repeat(19)));
    assert_eq!(chinese[3].body, "--\n");
    let english = hardware_sections(&report, Language::English);
    let names: Vec<&str> = english.iter().map(|section| section.name.as_str()).collect();
    assert_eq!(
        names,
        vec!["SPHardwareDataType", "SPMemoryDataType", "SPAudioDataType", "SPAlphaDataType", "SPZetaDataType"]
    );
}

#[test]
fn section_labels_rename_known_data_types_only() {
    assert_eq!(hardware_section_label("SPPowerDataType", Language::Chinese), "电源与电池");
    assert_eq!(hardware_section_label("SPCameraDataType", Language::Chinese), "摄像头");
    assert_eq!(hardware_section_label("SPPowerDataType", Language::English), "SPPowerDataType");
    assert_eq!(hardware_section_label("SPNewDataType", Language::Chinese), "SPNewDataType");
}

#[test]
fn transport_sections_describe_thunderbolt_and_rdma() {
    let rdma = RdmaStatus {
        available: true,
        status: "RDMA enabled".into(),
        devices: vec![
            RdmaDevice {
                name: "rdma_en2".into(),
                transport: "InfiniBand".into(),
                node_guid: "0000:0000:0000:0001".into(),
                port_state: "PORT_ACTIVE".into(),
                active_mtu: 4096,
                link_layer: "Ethernet".into(),
                interface: "en2".into(),
            },
            RdmaDevice {
                name: "mlx".into(),
                transport: "InfiniBand".into(),
                node_guid: String::new(),
                port_state: "PORT_DOWN".into(),
                active_mtu: 1024,
                link_layer: "InfiniBand".into(),
                interface: String::new(),
            },
        ],
    };
    let sections = transport_sections(&[], &[], &rdma, Language::English);
    assert_eq!(sections.len(), 2);
    assert_eq!(sections[0].name, "Thunderbolt");
    assert_eq!(sections[0].body, "unavailable");
    assert_eq!(sections[1].name, "RDMA");
    assert_eq!(
        sections[1].body,
        "RDMA enabled\n\nrdma_en2\n  transport InfiniBand · state PORT_ACTIVE · mtu 4096 · link Ethernet · en2\nmlx\n  transport InfiniBand · state PORT_DOWN · mtu 1024 · link InfiniBand"
    );
    let with_peer = transport_sections(&[], &["en5".to_string()], &rdma, Language::Chinese);
    assert_eq!(with_peer[0].name, "雷雳");
    assert_eq!(with_peer[0].body, "Thunderbolt Bridge:\n  └─ en5 (peer host)");
}
