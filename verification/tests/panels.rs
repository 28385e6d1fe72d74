use batty::extras::BatteryExtras;
use batty::panels::{
    common_info_items, consumption_label, energy_items, environment_items, timing_items,
    vendor_display, BatteryInfo, ChargeState,
};

fn rows(v: &[(&str, &str)]) -> Vec<(String, String)> {
    v.iter().map(|(a, b)| (a.to_string(), b.to_string())).collect()
}

fn extras() -> BatteryExtras {
    BatteryExtras {
        pack_lot_code: Some("F8".to_string()),
        pcb_lot_code: Some("YH".to_string()),
        firmware_version: Some("PR".to_string()),
        hardware_revision: None,
        cell_revision: None,
        first_use: Some(1_678_307_200),
        technology: "Lithium Polymer",
        design_capacity_mah: Some(4563),
        nominal_charge_capacity_mah: Some(4700),
        total_operating_time_hours: Some(1234),
        max_capacity_percent: Some(100),
        vendor: None,
        battery_health_metric: None,
        lifetime_max_temperature_dc: Some(453),
        lifetime_max_charge_current_ma: Some(-4512),
        lifetime_max_pack_voltage_mv: Some(13104),
        system_disconnect_count: Some(0),
        cycle_count_design: Some(300),
    }
}

fn info() -> BatteryInfo {
    BatteryInfo {
        vendor: None,
        model: Some("SN7038".to_string()),
        serial_number: None,
        technology: "unknown".to_string(),
        state: "charging".to_string(),
        cycle_count: Some(0),
    }
}

#[test]
fn vendor_fallback_chain() {
    let x = extras();
    let own = "Apple".to_string();
    assert_eq!(vendor_display(Some(&own), Some(&x)), "Apple");
    assert_eq!(vendor_display(None, Some(&x)), "lot F8");
    let mut with_supplier = extras();
    with_supplier.vendor = Some("LG Chem");
    assert_eq!(vendor_display(None, Some(&with_supplier)), "LG Chem");
    let mut no_lot = extras();
    no_lot.pack_lot_code = None;
    assert_eq!(vendor_display(None, Some(&no_lot)), "N/A");
    assert_eq!(vendor_display(None, None), "N/A");
}

#[test]
fn device_table_on_macos() {
    let x = extras();
    assert_eq!(
        common_info_items(&info(), Some(&x), true),
        rows(&[
            ("Vendor", "lot F8"),
            ("Model", "SN7038"),
            ("S/N", "N/A"),
            ("Technology", "Lithium Polymer"),
            ("Firmware", "PR"),
            ("Cell rev", "N/A"),
            ("Charge state", "charging"),
            ("Cycles count", "0 / 300"),
        ])
    );
    assert_eq!(
        common_info_items(&info(), None, true),
        rows(&[
            ("Vendor", "N/A"),
            ("Model", "SN7038"),
            ("S/N", "N/A"),
            ("Technology", "unknown"),
            ("Firmware", "N/A"),
            ("Cell rev", "N/A"),
            ("Charge state", "charging"),
            ("Cycles count", "0"),
        ])
    );
}

#[test]
fn cycle_count_beside_service_limit() {
    let x = extras();
    let mut i = info();
    i.cycle_count = Some(12);
    assert_eq!(common_info_items(&i, Some(&x), true)[7].1, "12 / 300");
    let mut no_limit = extras();
    no_limit.cycle_count_design = None;
    assert_eq!(common_info_items(&i, Some(&no_limit), true)[7].1, "12");
    i.cycle_count = None;
    assert_eq!(common_info_items(&i, Some(&x), true)[7].1, "N/A");
}

#[test]
fn device_table_elsewhere() {
    let mut i = info();
    i.cycle_count = None;
    i.vendor = Some("ACME".to_string());
    assert_eq!(
        common_info_items(&i, None, false),
        rows(&[
            ("Vendor", "ACME"),
            ("Model", "SN7038"),
            ("S/N", "N/A"),
            ("Technology", "unknown"),
            ("Charge state", "charging"),
            ("Cycles count", "N/A"),
        ])
    );
}

#[test]
fn energy_table() {
    assert_eq!(consumption_label(ChargeState::Charging), "Charging with");
    assert_eq!(consumption_label(ChargeState::Discharging), "Discharging with");
    assert_eq!(consumption_label(ChargeState::Full), "Consumption");
    assert_eq!(consumption_label(ChargeState::Unknown), "Consumption");
    let r = energy_items(
        ChargeState::Discharging,
        "7.50 W".to_string(),
        "12.80 V".to_string(),
        "96.00 %".to_string(),
        "50.00 Wh".to_string(),
        "60.00 Wh".to_string(),
        "70.00 Wh".to_string(),
    );
    assert_eq!(
        r,
        rows(&[
            ("Discharging with", "7.50 W"),
            ("Voltage", "12.80 V"),
            ("Capacity", "96.00 %"),
            ("Current", "50.00 Wh"),
            ("Last full", "60.00 Wh"),
            ("Full design", "70.00 Wh"),
        ])
    );
}

#[test]
fn time_table() {
    assert_eq!(
        timing_items(Some(9420), None),
        rows(&[("Time to full", "2h 37m"), ("Time to empty", "N/A")])
    );
    assert_eq!(
        timing_items(None, Some(0)),
        rows(&[("Time to full", "N/A"), ("Time to empty", "0s")])
    );
}

#[test]
fn environment_table() {
    let x = extras();
    assert_eq!(
        environment_items("31.20 °C".to_string(), Some(&x)),
        rows(&[
            ("Temperature", "31.20 °C"),
            ("Operating", "1234 h"),
            ("First use", "2023-03-08"),
            ("Health score", "N/A"),
            ("Max temp ever", "45.3 °C"),
            ("Peak charge", "-4512 mA"),
            ("Peak voltage", "13104 mV"),
            ("Disconnects", "0"),
        ])
    );
    assert_eq!(environment_items("N/A".to_string(), None), rows(&[("Temperature", "N/A")]));
}

#[test]
fn lifetime_temperature_text() {
    let mut x = extras();
    x.lifetime_max_temperature_dc = Some(12_000);
    assert_eq!(environment_items(String::new(), Some(&x))[4].1, "1200.0 °C");
    x.lifetime_max_temperature_dc = Some(-5);
    assert_eq!(environment_items(String::new(), Some(&x))[4].1, "-0.5 °C");
    x.lifetime_max_temperature_dc = Some(0);
    assert_eq!(environment_items(String::new(), Some(&x))[4].1, "0.0 °C");
    x.lifetime_max_temperature_dc = None;
    assert_eq!(environment_items(String::new(), Some(&x))[4].1, "N/A");
}
