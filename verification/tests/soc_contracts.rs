use bmtop::i18n::Language;
use bmtop::soc::{
    c_str_field, convert_topology, core_labels, fan_readings, sensor_group_for_key, sensor_group_label,
    sensor_group_members,
    thermal_level, thermal_level_label, topology_summary, CpuTopology, RawFan, RawTopology,
};

fn topology(e_cores: u32, p_cores: u32) -> CpuTopology {
    CpuTopology {
        brand: "Apple M3 Max".into(),
        e_cores,
        p_cores,
        gpu_cores: Some(40),
        gpu_max_freq_mhz: Some(1380),
    }
}

#[test]
fn sensor_groups_follow_smc_prefixes() {
    assert_eq!(sensor_group_for_key("Tp01"), "cpu_p");
    assert_eq!(sensor_group_for_key("Te05"), "cpu_e");
    assert_eq!(sensor_group_for_key("Tf04"), "cpu_p");
    assert_eq!(sensor_group_for_key("TC0a"), "cpu_die");
    assert_eq!(sensor_group_for_key("TPD1"), "soc");
    assert_eq!(sensor_group_for_key("Tg0f"), "gpu");
    assert_eq!(sensor_group_for_key("Tm02"), "memory");
    assert_eq!(sensor_group_for_key("TS0a"), "ssd");
    assert_eq!(sensor_group_for_key("TH0x"), "ssd");
    assert_eq!(sensor_group_for_key("Ta01"), "ambient");
    assert_eq!(sensor_group_for_key("TB1T"), "board");
    assert_eq!(sensor_group_for_key("TRD3"), "gpu");
    assert_eq!(sensor_group_for_key("TCMz"), "cpu_die");
    assert_eq!(sensor_group_for_key("TCDX"), "cpu_die");
    assert_eq!(sensor_group_for_key("TV0h"), "vrm");
    assert_eq!(sensor_group_for_key("TD01"), "display");
    assert_eq!(sensor_group_for_key("TW0P"), "wireless");
    assert_eq!(sensor_group_for_key("TPSP"), "soc");
    assert_eq!(sensor_group_for_key("Tz99"), "other");
}

#[test]
fn short_and_non_ascii_keys_fall_into_other() {
    assert_eq!(sensor_group_for_key(""), "other");
    assert_eq!(sensor_group_for_key("T"), "other");
    assert_eq!(sensor_group_for_key("éC"), "other");
    assert_eq!(sensor_group_for_key("xP"), "soc");
    assert_eq!(sensor_group_for_key("TPMx"), "soc");
}

#[test]
fn topology_conversion_handles_missing_gpu() {
    let mut raw = RawTopology { brand: [0; 64], e_cores: 4, p_cores: 12, gpu_cores: 0, gpu_max_freq_mhz: 0 };
    raw.brand[..12].copy_from_slice(b"Apple M3 Max");
    let topology = convert_topology(&raw);
    assert_eq!(topology.brand, "Apple M3 Max");
    assert_eq!(topology.e_cores, 4);
    assert_eq!(topology.p_cores, 12);
    assert_eq!(topology.gpu_cores, None);
}

#[test]
fn topology_conversion_clamps_unknown_counts() {
    let raw = RawTopology { brand: [b'x'; 64], e_cores: -1, p_cores: 0, gpu_cores: 38, gpu_max_freq_mhz: -5 };
    let topology = convert_topology(&raw);
    assert_eq!(topology.brand.len(), 64);
    assert_eq!((topology.e_cores, topology.p_cores), (0, 0));
    assert_eq!(topology.gpu_cores, Some(38));
    assert_eq!(topology.gpu_max_freq_mhz, None);
    assert_eq!(c_str_field(b"M4\0junk"), "M4");
}

#[test]
fn core_labels_split_at_e_core_count() {
    let labels = core_labels(6, Some(&topology(2, 4)));
    assert_eq!(labels, ["E1", "E2", "P1", "P2", "P3", "P4"]);
}

#[test]
fn core_labels_fall_back_on_count_mismatch() {
    let labels = core_labels(3, Some(&topology(2, 4)));
    assert_eq!(labels, ["#0", "#1", "#2"]);
    assert_eq!(core_labels(2, None), ["#0", "#1"]);
}

#[test]
fn topology_summary_formats_core_config() {
    assert_eq!(topology_summary(&topology(4, 12)), "Apple M3 Max (4E+12P · 40 GPU)");
    let mut without_gpu = topology(4, 12);
    without_gpu.gpu_cores = None;
    assert_eq!(topology_summary(&without_gpu), "Apple M3 Max (4E+12P)");
}

#[test]
fn fans_are_named_by_slot_and_clamped_to_eight() {
    let mut fans = [RawFan::default(); 8];
    fans[0] = RawFan { actual_rpm: 1200, min_rpm: 990, max_rpm: 3900, target_rpm: 1200 };
    let one = fan_readings(&fans, 1);
    assert_eq!(one.len(), 1);
    assert_eq!(one[0].name, "Fan 0");
    assert_eq!(one[0].actual_rpm, 1200);
    assert_eq!(fan_readings(&fans, -3).len(), 0);
    let all = fan_readings(&fans, 40);
    assert_eq!(all.len(), 8);
    assert_eq!(all[7].name, "Fan 7");
}

#[test]
fn thermal_level_is_missing_when_negative() {
    assert_eq!(thermal_level(-1), None);
    assert_eq!(thermal_level(0), Some(0));
    assert_eq!(thermal_level(4), Some(4));
    assert_eq!(thermal_level(300), Some(44));
}

#[test]
fn thermal_levels_and_sensor_groups_read_in_the_chosen_language() {
    let english = Language::English.strings();
    assert_eq!(thermal_level_label(&english, 0), "Nominal");
    assert_eq!(thermal_level_label(&english, 3), "Critical");
    assert_eq!(thermal_level_label(&english, 4), "Sleeping");
    assert_eq!(thermal_level_label(&english, 200), "Sleeping");
    let chinese = Language::Chinese.strings();
    assert_eq!(thermal_level_label(&chinese, 1), "偏暖");
    assert_eq!(sensor_group_label(&chinese, "cpu_e"), "CPU E 核");
    assert_eq!(sensor_group_label(&english, "cpu_e"), "CPU E-Core");
    assert_eq!(sensor_group_label(&english, "ssd"), "SSD");
    assert_eq!(sensor_group_label(&english, "cpu_x"), "Other");
    assert_eq!(sensor_group_label(&chinese, ""), "其他");
}

#[test]
fn sensor_groups_follow_the_page_order() {
    let groups: Vec<String> =
        ["Tg01", "Tp01", "Tp02", "Tm01"].iter().map(|key| sensor_group_for_key(key).to_string()).collect();
    let members = sensor_group_members(&groups);
    assert_eq!(
        members,
        vec![("cpu_p".to_string(), vec![1, 2]), ("gpu".to_string(), vec![0]), ("memory".to_string(), vec![3])]
    );
    assert!(sensor_group_members(&[]).is_empty());
    let odd = vec!["other".to_string(), "nonsense".to_string(), "cpu_e".to_string()];
    assert_eq!(sensor_group_members(&odd), vec![("cpu_e".to_string(), vec![2]), ("other".to_string(), vec![0])]);
}
