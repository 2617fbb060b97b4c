use lcars_ops::battery::{
    find_battery, health_of, measure, value_of, BatteryInfo, Measure, REFRESH_INTERVAL_MS,
};
use lcars_ops::sysfs::{read_at, read_u64, Directory, FileEntry};

fn dir(name: &str, files: &[(&str, &str)]) -> Directory {
    Directory {
        name: name.to_string(),
        files: files
            .iter()
            .map(|(n, c)| FileEntry { name: n.to_string(), content: c.to_string() })
            .collect(),
    }
}

fn battery(files: &[(&str, &str)]) -> Vec<Directory> {
    let mut all = vec![("type", "Battery\n")];
    all.extend_from_slice(files);
    vec![dir("AC", &[("type", "Mains\n")]), dir("BAT0", &all)]
}

#[test]
fn attributes_are_trimmed_and_numbers_parsed() {
    let d = dir("BAT0", &[("capacity", " 87\n"), ("status", "Charging\n"), ("bad", "12x\n")]);
    assert_eq!(read_at(&d, "status"), Some("Charging".to_string()));
    assert_eq!(read_at(&d, "missing"), None);
    assert_eq!(read_u64(&d, "capacity"), Some(87));
    assert_eq!(read_u64(&d, "bad"), None);
    assert_eq!(read_u64(&d, "missing"), None);
}

#[test]
fn the_first_file_of_a_name_is_read() {
    let d = dir("x", &[("a", "1"), ("a", "2")]);
    assert_eq!(read_u64(&d, "a"), Some(1));
}

#[test]
fn the_first_battery_is_found() {
    let supplies = vec![
        dir("AC", &[("type", "Mains\n")]),
        dir("notype", &[]),
        dir("BAT1", &[("type", "Battery\n")]),
        dir("BAT0", &[("type", " Battery ")]),
    ];
    assert_eq!(find_battery(&supplies), Some(2));
    assert_eq!(find_battery(&vec![dir("AC", &[("type", "Mains")])]), None);
    assert_eq!(find_battery(&vec![dir("b", &[("type", "battery")])]), None);
    assert_eq!(find_battery(&Vec::new()), None);
}

#[test]
fn health_is_full_energy_over_design_energy() {
    let info = BatteryInfo::new(
        0,
        &battery(&[("energy_full", "45000000\n"), ("energy_full_design", "50000000\n")]),
    );
    assert!(info.available);
    assert_eq!(info.health_ppm, 900_000);
    assert_eq!(info.energy_full_design_uwh, 50_000_000);
    assert_eq!(
        health_of(0, Measure::Direct(45_000_000), Measure::Direct(50_000_000), 0),
        900_000
    );
}

#[test]
fn health_stays_where_the_design_energy_is_unknown() {
    let info = BatteryInfo::new(0, &battery(&[("energy_full", "45000000\n")]));
    assert!(info.available);
    assert_eq!(info.health_ppm, 0);
    assert_eq!(info.energy_full_design_uwh, 0);
    assert_eq!(health_of(123, Measure::Direct(45_000_000), Measure::Direct(0), 0), 123);
    assert_eq!(health_of(123, Measure::Direct(45_000_000), Measure::Missing, 7), 123);
    assert_eq!(health_of(123, Measure::Direct(45_000_000), Measure::Derived(0), 7), 123);
    assert_eq!(health_of(123, Measure::Direct(45_000_000), Measure::Derived(7), 0), 123);
    let zero = BatteryInfo::new(
        0,
        &battery(&[("energy_full", "45000000\n"), ("energy_full_design", "0\n")]),
    );
    assert_eq!(zero.health_ppm, 0);
}

#[test]
fn health_may_pass_a_whole_and_is_capped_at_the_greatest_number() {
    assert_eq!(health_of(0, Measure::Direct(60), Measure::Direct(50), 0), 1_200_000);
    assert_eq!(health_of(0, Measure::Direct(u64::MAX), Measure::Direct(1), 0), u64::MAX);
    assert_eq!(health_of(0, Measure::Derived(u64::MAX), Measure::Derived(1), 1), u64::MAX);
    assert_eq!(health_of(0, Measure::Direct(u64::MAX), Measure::Derived(1), 1), u64::MAX);
}

#[test]
fn energy_and_power_fall_back_to_charge_times_voltage() {
    let info = BatteryInfo::new(
        0,
        &battery(&[
            ("voltage_now", "12000000\n"),
            ("charge_full", "4000000\n"),
            ("charge_full_design", "5000000\n"),
            ("current_now", "1500000\n"),
        ]),
    );
    // 5 Ah at 12 V are 60 Wh; 1.5 A at 12 V are 18 W.
    assert_eq!(info.energy_full_design_uwh, 60_000_000);
    assert_eq!(info.power_now_uw, 18_000_000);
    assert_eq!(info.health_ppm, 800_000);
}

#[test]
fn direct_energy_and_power_win_over_the_fall_back() {
    let info = BatteryInfo::new(
        0,
        &battery(&[
            ("voltage_now", "12000000\n"),
            ("energy_full_design", "50000000\n"),
            ("charge_full_design", "5000000\n"),
            ("power_now", "7000000\n"),
            ("current_now", "1500000\n"),
        ]),
    );
    assert_eq!(info.energy_full_design_uwh, 50_000_000);
    assert_eq!(info.power_now_uw, 7_000_000);
}

#[test]
fn missing_attributes_get_their_defaults() {
    let info = BatteryInfo::new(9, &battery(&[]));
    assert!(info.available);
    assert_eq!(info.device, "BAT0");
    assert_eq!(info.capacity, 0);
    assert_eq!(info.status, "Unknown");
    assert_eq!(info.technology, "Unknown");
    assert_eq!(info.manufacturer, "Unknown");
    assert_eq!(info.model_name, "Unknown");
    assert_eq!(info.cycle_count, 0);
    assert_eq!(info.power_now_uw, 0);
    assert_eq!(info.last_refresh, 9);
}

#[test]
fn all_attributes_are_read() {
    let info = BatteryInfo::new(
        0,
        &battery(&[
            ("capacity", "87\n"),
            ("status", "Discharging\n"),
            ("technology", "Li-ion\n"),
            ("manufacturer", "ACME\n"),
            ("model_name", "B-1\n"),
            ("cycle_count", "312\n"),
        ]),
    );
    assert_eq!(info.capacity, 87);
    assert_eq!(info.status, "Discharging");
    assert_eq!(info.technology, "Li-ion");
    assert_eq!(info.manufacturer, "ACME");
    assert_eq!(info.model_name, "B-1");
    assert_eq!(info.cycle_count, 312);
}

#[test]
fn a_capacity_beyond_32_bits_keeps_its_low_bits() {
    let info = BatteryInfo::new(0, &battery(&[("capacity", "4294967301\n")]));
    assert_eq!(info.capacity, 5);
}

#[test]
fn without_a_battery_the_fields_keep_what_was_read() {
    let mut info = BatteryInfo::new(0, &battery(&[("capacity", "87\n"), ("status", "Full\n")]));
    info.refresh_if_needed(REFRESH_INTERVAL_MS, &vec![dir("AC", &[("type", "Mains\n")])]);
    assert!(!info.available);
    assert_eq!(info.capacity, 87);
    assert_eq!(info.status, "Full");
    assert_eq!(info.device, "BAT0");
    assert_eq!(info.last_refresh, REFRESH_INTERVAL_MS);
}

#[test]
fn no_battery_at_the_start_is_a_state_like_any_other() {
    let info = BatteryInfo::new(3, &Vec::new());
    assert!(!info.available);
    assert_eq!(info.device, "");
    assert_eq!(info.status, "Unknown");
    assert_eq!(info.health_ppm, 0);
}

#[test]
fn battery_polled_within_the_interval_stays_as_it_is() {
    let mut info = BatteryInfo::new(1_000, &battery(&[("capacity", "87\n")]));
    let later = battery(&[("capacity", "20\n")]);
    assert!(!info.due(1_000));
    assert!(!info.due(1_000 + REFRESH_INTERVAL_MS - 1));
    info.refresh_if_needed(1_000 + REFRESH_INTERVAL_MS - 1, &later);
    assert_eq!(info.capacity, 87);
    assert_eq!(info.last_refresh, 1_000);
    info.refresh_if_needed(1_000 + REFRESH_INTERVAL_MS - 1, &later);
    assert_eq!(info.capacity, 87);
    assert!(info.due(1_000 + REFRESH_INTERVAL_MS));
    info.refresh_if_needed(1_000 + REFRESH_INTERVAL_MS, &later);
    assert_eq!(info.capacity, 20);
    assert_eq!(info.last_refresh, 1_000 + REFRESH_INTERVAL_MS);
}

#[test]
fn a_clock_that_went_back_makes_nothing_due() {
    let mut info = BatteryInfo::new(10_000, &battery(&[("capacity", "87\n")]));
    info.refresh_if_needed(0, &battery(&[("capacity", "20\n")]));
    assert_eq!(info.capacity, 87);
    assert_eq!(info.last_refresh, 10_000);
}

#[test]
fn the_files_that_are_read_are_listed() {
    let names = lcars_ops::battery::file_names();
    for name in ["type", "capacity", "status", "energy_full_design", "charge_full", "current_now", "voltage_now"] {
        assert!(names.contains(&name));
    }
    assert_eq!(names.len(), 14);
    assert!(lcars_ops::gpu::device_file_names().contains(&"uevent"));
    assert_eq!(lcars_ops::gpu::monitor_file_names(), vec!["temp1_input", "power1_average", "power1_cap"]);
    assert_eq!(lcars_ops::info::cpu_file_names(), vec!["topology/physical_package_id"]);
}

#[test]
fn a_design_energy_below_a_microwatt_hour_still_gives_a_health() {
    // 500 uAh at 1000 uV are half a microwatt-hour: shown as nothing, and
    // yet known and positive.
    let info = BatteryInfo::new(
        0,
        &battery(&[
            ("voltage_now", "1000\n"),
            ("charge_full", "450\n"),
            ("charge_full_design", "500\n"),
        ]),
    );
    assert_eq!(info.energy_full_design_uwh, 0);
    assert_eq!(info.health_ppm, 900_000);
}

#[test]
fn health_from_readings_of_both_kinds() {
    // full energy read, design energy from charge: 45 Wh of 5 Ah at 10 V
    assert_eq!(
        health_of(0, Measure::Direct(45_000_000), Measure::Derived(5_000_000), 10_000_000),
        900_000
    );
    // full energy from charge, design energy read: 4 Ah at 10 V of 50 Wh
    assert_eq!(
        health_of(0, Measure::Derived(4_000_000), Measure::Direct(50_000_000), 10_000_000),
        800_000
    );
    // both from charge: the voltage does not matter
    assert_eq!(health_of(0, Measure::Derived(1), Measure::Derived(3), 1), 333_333);
    assert_eq!(health_of(0, Measure::Derived(1), Measure::Derived(3), u64::MAX), 333_333);
    // no full energy at all
    assert_eq!(health_of(5, Measure::Missing, Measure::Direct(50), 0), 0);
    assert_eq!(health_of(5, Measure::Missing, Measure::Derived(50), 3), 0);
}

#[test]
fn a_measure_is_taken_from_the_direct_file_first() {
    let d = dir("BAT0", &[("energy_full", "7\n"), ("charge_full", "9\n"), ("charge_only", "4\n"), ("bad", "x")]);
    assert!(measure(&d, "energy_full", "charge_full") == Measure::Direct(7));
    assert!(measure(&d, "missing", "charge_only") == Measure::Derived(4));
    assert!(measure(&d, "bad", "charge_only") == Measure::Derived(4));
    assert!(measure(&d, "missing", "bad") == Measure::Missing);
    assert_eq!(value_of(Measure::Direct(7), 99), 7);
    assert_eq!(value_of(Measure::Derived(5_000_000), 12_000_000), 60_000_000);
    assert_eq!(value_of(Measure::Derived(u64::MAX), u64::MAX), u64::MAX);
    assert_eq!(value_of(Measure::Missing, 99), 0);
}
