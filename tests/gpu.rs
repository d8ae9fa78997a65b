use rsysmetrics::gpu::{
    is_amd_vendor, is_card_name, label_file_name, sensor_kind, sensor_label, sensor_metric_name,
    SensorKind,
};

#[test]
fn hwmon_files_are_classified_by_name() {
    assert_eq!(sensor_kind("temp1_input"), Some(SensorKind::Temperature));
    assert_eq!(sensor_kind("in0_input"), Some(SensorKind::Voltage));
    assert_eq!(sensor_kind("temp1_label"), None);
    assert_eq!(sensor_kind("fan1_input"), None);
    assert_eq!(sensor_kind("power1_average"), None);
}

#[test]
fn label_file_sits_beside_the_reading() {
    assert_eq!(label_file_name("temp2_input"), "temp2_label");
    assert_eq!(label_file_name("in0_input"), "in0_label");
    assert_eq!(label_file_name("a_input_input"), "a_label_label");
    assert_eq!(label_file_name("power1_average"), "power1_average");
}

#[test]
fn sensor_labels_become_name_parts() {
    assert_eq!(sensor_label("  Junction Temp\n"), "junction_temp");
    assert_eq!(sensor_label("edge"), "edge");
    assert_eq!(sensor_metric_name(SensorKind::Temperature, "edge"), "gpu_temperature_edge");
    assert_eq!(sensor_metric_name(SensorKind::Voltage, "vddgfx"), "gpu_voltage_vddgfx");
}

#[test]
fn only_amd_cards_are_read() {
    assert!(is_amd_vendor("0x1002\n"));
    assert!(!is_amd_vendor("0x10de\n"));
    assert!(is_card_name("card0"));
    assert!(!is_card_name("renderD128"));
}

#[test]
fn spaces_become_underscores() {
    assert_eq!(rsysmetrics::gpu::underscore_spaces("Sensor 1 hot"), "Sensor_1_hot");
    assert_eq!(rsysmetrics::gpu::underscore_spaces(""), "");
}
