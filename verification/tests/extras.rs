use batty::extras::{
    decode_vendor, first_battery_entry, parse_ioreg_output, pmset_cycle_design, read_outputs,
    CommandOutput, ReadError, CF_EPOCH_UNIX_SECONDS,
};
use batty::plist_model::PlistValue;

fn ok_output(stdout: &str) -> CommandOutput {
    CommandOutput { success: true, code: Some(0), stdout: stdout.as_bytes().to_vec(), stderr: Vec::new() }
}

fn registry(mfg_base64: &str, max_temperature: i64, first_use: i64) -> String {
    format!(
        r#"<?xml version="1.0" encoding="UTF-8"?>
<!DOCTYPE plist PUBLIC "-//Apple//DTD PLIST 1.0//EN" "http://www.apple.com/DTDs/PropertyList-1.0.dtd">
<plist version="1.0">
<array>
	<dict>
		<key>BatteryData</key>
		<dict>
			<key>BatteryHealthMetric</key>
			<integer>25</integer>
			<key>DateOfFirstUse</key>
			<integer>{first_use}</integer>
			<key>LifetimeData</key>
			<dict>
				<key>MaximumChargeCurrent</key>
				<integer>4512</integer>
				<key>MaximumPackVoltage</key>
				<integer>13104</integer>
				<key>MaximumTemperature</key>
				<integer>{max_temperature}</integer>
				<key>SystemDisconnectCount</key>
				<integer>2</integer>
				<key>TotalOperatingTime</key>
				<integer>1234</integer>
			</dict>
		</dict>
		<key>DesignCapacity</key>
		<integer>4563</integer>
		<key>ManufacturerData</key>
		<data>{mfg_base64}</data>
		<key>MaxCapacity</key>
		<integer>100</integer>
		<key>NominalChargeCapacity</key>
		<integer>4700</integer>
	</dict>
</array>
</plist>
"#
    )
}

#[test]
fn registry_entry_fields_are_decoded() {
    // "F8YHPR00EL", three bytes that end the text, then "SMP".
    let out = ok_output(&registry("RjhZSFBSMDBFTAAAAVNNUA==", 453, 700_000_000));
    let x = parse_ioreg_output(&out).expect("entry");
    assert_eq!(x.pack_lot_code.as_deref(), Some("F8"));
    assert_eq!(x.pcb_lot_code.as_deref(), Some("YH"));
    assert_eq!(x.firmware_version.as_deref(), Some("PR"));
    assert_eq!(x.hardware_revision.as_deref(), Some("00"));
    assert_eq!(x.cell_revision.as_deref(), Some("EL"));
    assert_eq!(x.technology, "Lithium Polymer");
    assert_eq!(x.design_capacity_mah, Some(4563));
    assert_eq!(x.nominal_charge_capacity_mah, Some(4700));
    assert_eq!(x.max_capacity_percent, Some(100));
    assert_eq!(x.battery_health_metric, Some(25));
    assert_eq!(x.total_operating_time_hours, Some(1234));
    assert_eq!(x.lifetime_max_charge_current_ma, Some(4512));
    assert_eq!(x.lifetime_max_pack_voltage_mv, Some(13104));
    assert_eq!(x.system_disconnect_count, Some(2));
    assert_eq!(x.lifetime_max_temperature_dc, Some(453));
    assert_eq!(x.first_use, Some(CF_EPOCH_UNIX_SECONDS + 700_000_000));
    assert_eq!(x.first_use, Some(1_678_307_200));
    // The supplier code after the zero byte is not part of the text.
    assert_eq!(x.vendor, None);
    assert_eq!(x.cycle_count_design, None);
}

#[test]
fn whole_degree_temperatures_are_kept() {
    let out = ok_output(&registry("eHhTV0R5eVNNUA==", 1200, 0));
    let x = parse_ioreg_output(&out).expect("entry");
    assert_eq!(x.lifetime_max_temperature_dc, Some(12_000));
    let out = ok_output(&registry("eHhTV0R5eVNNUA==", 1000, 0));
    let x = parse_ioreg_output(&out).expect("entry");
    assert_eq!(x.lifetime_max_temperature_dc, Some(1000));
}

#[test]
fn negative_first_use_is_unknown() {
    let out = ok_output(&registry("eHhTV0R5eVNNUA==", 300, -5));
    let x = parse_ioreg_output(&out).expect("entry");
    assert_eq!(x.first_use, None);
    let out = ok_output(&registry("eHhTV0R5eVNNUA==", 300, 0));
    let x = parse_ioreg_output(&out).expect("entry");
    assert_eq!(x.first_use, Some(978_307_200));
}

#[test]
fn vendor_is_found_in_table_order() {
    // "xxSWDyySMP": both codes occur; SMP comes first in the table.
    let out = ok_output(&registry("eHhTV0R5eVNNUA==", 300, 0));
    let x = parse_ioreg_output(&out).expect("entry");
    assert_eq!(x.vendor, Some("Simplo Technology"));
    // "DP12": a two-letter code at the start; too short for the lot pairs past byte 4.
    let out = ok_output(&registry("RFAxMg==", 300, 0));
    let x = parse_ioreg_output(&out).expect("entry");
    assert_eq!(x.vendor, Some("Dynapack International"));
    assert_eq!(x.pack_lot_code.as_deref(), Some("DP"));
    assert_eq!(x.pcb_lot_code.as_deref(), Some("12"));
    assert_eq!(x.firmware_version, None);
}

#[test]
fn supplier_lookup() {
    assert_eq!(decode_vendor("xxSMPyy"), Some("Simplo Technology"));
    assert_eq!(decode_vendor("SWD"), Some("Sunwoda Electronic"));
    assert_eq!(decode_vendor("abcDSY"), Some("Desay Battery"));
    assert_eq!(decode_vendor("ATL"), Some("Amperex Technology"));
    assert_eq!(decode_vendor("..NVT.."), Some("Navitas/CosMX"));
    assert_eq!(decode_vendor("LGC"), Some("LG Chem"));
    assert_eq!(decode_vendor("DP01"), Some("Dynapack International"));
    assert_eq!(decode_vendor("xDP01"), None);
    assert_eq!(decode_vendor("F8YHPR00EL"), None);
    assert_eq!(decode_vendor(""), None);
    assert_eq!(decode_vendor("LGCSMP"), Some("Simplo Technology"));
}

#[test]
fn missing_manufacturer_data_gives_no_codes() {
    let doc = r#"<?xml version="1.0" encoding="UTF-8"?>
<plist version="1.0"><array><dict><key>DesignCapacity</key><integer>10</integer></dict></array></plist>"#;
    let x = parse_ioreg_output(&ok_output(doc)).expect("entry");
    assert_eq!(x.pack_lot_code, None);
    assert_eq!(x.vendor, None);
    assert_eq!(x.design_capacity_mah, Some(10));
    assert_eq!(x.first_use, None);
    assert_eq!(x.total_operating_time_hours, None);
}

#[test]
fn unprintable_pairs_are_dropped() {
    // bytes 0x01 0x41 then "BC".
    let doc = r#"<?xml version="1.0" encoding="UTF-8"?>
<plist version="1.0"><array><dict><key>ManufacturerData</key><data>AUFCQw==</data></dict></array></plist>"#;
    let x = parse_ioreg_output(&ok_output(doc)).expect("entry");
    assert_eq!(x.pack_lot_code, None);
    assert_eq!(x.pcb_lot_code.as_deref(), Some("BC"));
}

#[test]
fn failing_ioreg_is_reported() {
    let out = CommandOutput { success: false, code: Some(3), stdout: Vec::new(), stderr: b"denied".to_vec() };
    match parse_ioreg_output(&out) {
        Err(e @ ReadError::IoregNonZero { .. }) => {
            assert_eq!(e.message(), "ioreg exited 3: denied");
        }
        other => panic!("unexpected {:?}", other),
    }
    let out = CommandOutput { success: false, code: None, stdout: Vec::new(), stderr: Vec::new() };
    match parse_ioreg_output(&out) {
        Err(ReadError::IoregNonZero { status, stderr }) => {
            assert_eq!(status, -1);
            assert_eq!(stderr, "");
        }
        other => panic!("unexpected {:?}", other),
    }
}

#[test]
fn garbage_is_a_plist_error() {
    let out = ok_output("this is not a property list <<<");
    match parse_ioreg_output(&out) {
        Err(e @ ReadError::PlistParse(_)) => {
            assert!(e.message().starts_with("failed to parse ioreg plist: "));
        }
        other => panic!("unexpected {:?}", other),
    }
}

#[test]
fn no_battery_entry() {
    let empty = r#"<?xml version="1.0" encoding="UTF-8"?>
<plist version="1.0"><array></array></plist>"#;
    assert!(matches!(parse_ioreg_output(&ok_output(empty)), Err(ReadError::NoBattery)));
    let not_dict = r#"<?xml version="1.0" encoding="UTF-8"?>
<plist version="1.0"><array><integer>1</integer></array></plist>"#;
    assert!(matches!(parse_ioreg_output(&ok_output(not_dict)), Err(ReadError::NoBattery)));
    let top_dict = r#"<?xml version="1.0" encoding="UTF-8"?>
<plist version="1.0"><dict></dict></plist>"#;
    assert!(matches!(parse_ioreg_output(&ok_output(top_dict)), Err(ReadError::NoBattery)));
    assert_eq!(ReadError::NoBattery.message(), "no AppleSmartBattery found in IORegistry");
    assert_eq!(
        ReadError::IoregFailed("No such file".to_string()).message(),
        "failed to run ioreg: No such file"
    );
}

#[test]
fn pmset_cycle_limit_is_read() {
    let text = "Now drawing from 'AC Power'\n AC; Charging; 80%; Cap=80: FCC=100; Design=4563; Time=1:20; 1200mA; Cycles=12/300; Location=0;\n";
    assert_eq!(pmset_cycle_design(&ok_output(text)), Some(300));
    assert_eq!(pmset_cycle_design(&ok_output("Cycles=0/1000")), Some(1000));
}

#[test]
fn pmset_without_the_field() {
    assert_eq!(pmset_cycle_design(&ok_output("no cycles here")), None);
    assert_eq!(pmset_cycle_design(&ok_output("Cycles=12;")), None);
    assert_eq!(pmset_cycle_design(&ok_output("Cycles=12/;")), None);
    assert_eq!(pmset_cycle_design(&ok_output("Cycles=12/99999999999999999999;")), None);
    let failed = CommandOutput { success: false, code: Some(1), stdout: b"Cycles=1/300;".to_vec(), stderr: Vec::new() };
    assert_eq!(pmset_cycle_design(&failed), None);
    let not_utf8 = CommandOutput { success: true, code: Some(0), stdout: vec![0xff, b'C'], stderr: Vec::new() };
    assert_eq!(pmset_cycle_design(&not_utf8), None);
}

#[test]
fn undecodable_stderr_is_replaced() {
    let out = CommandOutput { success: false, code: Some(1), stdout: Vec::new(), stderr: vec![b'o', 0xff, b'k'] };
    match parse_ioreg_output(&out) {
        Err(e @ ReadError::IoregNonZero { .. }) => {
            assert_eq!(e.message(), "ioreg exited 1: o\u{FFFD}k");
        }
        other => panic!("unexpected {:?}", other),
    }
}

#[test]
fn both_outputs_give_the_cycle_limit() {
    let ioreg = ok_output(&registry("RjhZSFBSMDBFTAAAAVNNUA==", 453, 700_000_000));
    let pmset = ok_output("AC; Charging; Cycles=12/300; Location=0;");
    let x = read_outputs(&ioreg, Some(&pmset)).expect("entry");
    assert_eq!(x.cycle_count_design, Some(300));
    assert_eq!(x.technology, "Lithium Polymer");
    assert_eq!(x.pack_lot_code.as_deref(), Some("F8"));
}

#[test]
fn a_failing_pmset_only_leaves_the_limit_empty() {
    let ioreg = ok_output(&registry("RjhZSFBSMDBFTAAAAVNNUA==", 453, 700_000_000));
    let failed = CommandOutput { success: false, code: Some(1), stdout: b"Cycles=1/300;".to_vec(), stderr: Vec::new() };
    assert_eq!(read_outputs(&ioreg, Some(&failed)).expect("entry").cycle_count_design, None);
    assert_eq!(read_outputs(&ioreg, None).expect("entry").cycle_count_design, None);
    let no_field = ok_output("AC; Charging;");
    let x = read_outputs(&ioreg, Some(&no_field)).expect("entry");
    assert_eq!(x.cycle_count_design, None);
    assert_eq!(x.design_capacity_mah, Some(4563));
}

#[test]
fn ioreg_errors_come_through_whatever_pmset_says() {
    let pmset = ok_output("Cycles=12/300;");
    let bad = ok_output("not a plist <<<");
    assert!(matches!(read_outputs(&bad, Some(&pmset)), Err(ReadError::PlistParse(_))));
    let failed = CommandOutput { success: false, code: Some(2), stdout: Vec::new(), stderr: b"x".to_vec() };
    assert!(matches!(read_outputs(&failed, Some(&pmset)), Err(ReadError::IoregNonZero { status: 2, .. })));
}

#[test]
fn first_entry_of_the_document() {
    let entry = PlistValue::Dictionary(vec![("MaxCapacity".to_string(), PlistValue::Integer(Some(99)))]);
    let root = PlistValue::Array(vec![entry, PlistValue::Other]);
    assert!(matches!(first_battery_entry(&root), Some(PlistValue::Dictionary(_))));
    assert!(first_battery_entry(&PlistValue::Array(vec![])).is_none());
    assert!(first_battery_entry(&PlistValue::Array(vec![PlistValue::Integer(Some(1))])).is_none());
    assert!(first_battery_entry(&PlistValue::Data(vec![1])).is_none());
}
