use lcars_ops::gpu::{
    card_name, clock_from_lowered, find_gpu_device, find_hwmon, parse_active_clock_mhz,
    parse_uevent, pcie_gen_from_speed, pcie_link, vendor_name_of, vendor_to_name, CardEntry,
    GpuDevice, GpuInfo, REFRESH_INTERVAL_MS,
};
use lcars_ops::sysfs::{Directory, FileEntry};

fn cs(s: &str) -> Vec<char> {
    s.chars().collect()
}

fn dir(name: &str, files: &[(&str, &str)]) -> Directory {
    Directory {
        name: name.to_string(),
        files: files
            .iter()
            .map(|(n, c)| FileEntry { name: n.to_string(), content: c.to_string() })
            .collect(),
    }
}

fn card(name: &str, files: &[(&str, &str)], hwmon: Option<&[(&str, &str)]>) -> CardEntry {
    CardEntry {
        name: name.to_string(),
        device: Some(GpuDevice {
            files: dir("device", files),
            hwmon: match hwmon {
                Some(h) => vec![dir("hwmon3", h)],
                None => Vec::new(),
            },
        }),
    }
}

#[test]
fn active_clock_is_on_the_line_with_the_asterisk() {
    assert_eq!(parse_active_clock_mhz("0: 500Mhz\n1: 800Mhz *\n"), Some(800));
    assert_eq!(parse_active_clock_mhz("0: 500Mhz *\n1: 800Mhz\n"), Some(500));
}

#[test]
fn without_an_asterisk_there_is_no_active_clock() {
    assert_eq!(parse_active_clock_mhz("0: 500Mhz\n1: 800Mhz\n"), None);
    assert_eq!(parse_active_clock_mhz(""), None);
}

#[test]
fn the_unit_is_found_in_any_case_of_letters() {
    assert_eq!(parse_active_clock_mhz("1: 800MHZ *"), Some(800));
    assert_eq!(parse_active_clock_mhz("1: 800 mhz *"), Some(800));
    assert_eq!(parse_active_clock_mhz("* 2: 1200MHz"), Some(1200));
}

#[test]
fn a_clock_that_is_no_number_is_absent_not_zero() {
    assert_eq!(parse_active_clock_mhz("1: fastMhz *"), None);
    assert_eq!(parse_active_clock_mhz("Mhz *"), None);
    assert_eq!(parse_active_clock_mhz("1: 99999999999Mhz *"), None);
    assert_eq!(parse_active_clock_mhz("1: 0Mhz *"), Some(0));
}

#[test]
fn a_marked_line_without_the_unit_is_passed_over() {
    assert_eq!(parse_active_clock_mhz("0: 500 *\n1: 800Mhz *\n"), Some(800));
}

#[test]
fn the_first_marked_line_with_the_unit_decides() {
    assert_eq!(parse_active_clock_mhz("0: xMhz *\n1: 800Mhz *\n"), None);
    assert_eq!(parse_active_clock_mhz("0: 300Mhz *\r\n1: 800Mhz *\r\n"), Some(300));
}

#[test]
fn clock_of_a_line_in_lower_case() {
    assert_eq!(clock_from_lowered(&cs("1: 800mhz *")), Some(Some(800)));
    assert_eq!(clock_from_lowered(&cs("1: 800 *")), None);
    assert_eq!(clock_from_lowered(&cs("mhz")), Some(None));
    assert_eq!(clock_from_lowered(&cs("1: +7mhz mhz")), Some(Some(7)));
}

#[test]
fn link_speed_gives_the_generation() {
    assert_eq!(pcie_gen_from_speed("2.5 GT/s"), "1.0");
    assert_eq!(pcie_gen_from_speed("5.0 GT/s"), "2.0");
    assert_eq!(pcie_gen_from_speed("8.0 GT/s"), "3.0");
    assert_eq!(pcie_gen_from_speed("16.0 GT/s"), "4.0");
    assert_eq!(pcie_gen_from_speed("32.0 GT/s"), "5.0");
    assert_eq!(pcie_gen_from_speed("64.0 GT/s"), "?");
    assert_eq!(pcie_gen_from_speed("unknown"), "?");
}

#[test]
fn link_is_generation_and_lanes() {
    assert_eq!(pcie_link("8.0 GT/s", "16"), "PCIe 3.0 x16");
    assert_eq!(pcie_link("16.0 GT/s PCIe", "4"), "PCIe 4.0 x4");
    assert_eq!(pcie_link("1.0 GT/s", "1"), "PCIe ? x1");
}

#[test]
fn link_without_speed_or_width_is_not_available() {
    assert_eq!(pcie_link("", "16"), "N/A");
    assert_eq!(pcie_link("8.0 GT/s", ""), "N/A");
    assert_eq!(pcie_link("", ""), "N/A");
}

#[test]
fn known_vendors_are_named() {
    assert_eq!(vendor_to_name("0x1002"), "Advanced Micro Devices, Inc. [AMD/ATI]");
    assert_eq!(vendor_to_name("0x10de"), "NVIDIA Corporation");
    assert_eq!(vendor_to_name("0x8086"), "Intel Corporation");
    assert_eq!(vendor_to_name(" 0X10DE\n"), "NVIDIA Corporation");
}

#[test]
fn unknown_vendors_pass_through_in_lower_case() {
    assert_eq!(vendor_to_name("0xABCD\n"), "0xabcd");
    assert_eq!(vendor_to_name(""), "");
    assert_eq!(vendor_name_of(&cs("0xABCD")), "0xABCD");
}

#[test]
fn event_file_names_driver_and_slot() {
    let d = dir("device", &[("uevent", "DRIVER=amdgpu\nPCI_ID=1002:73BF\nPCI_SLOT_NAME=0000:0b:00.0\n")]);
    assert_eq!(parse_uevent(&d), ("amdgpu".to_string(), "0000:0b:00.0".to_string()));
}

#[test]
fn event_file_defaults_and_last_value() {
    assert_eq!(parse_uevent(&dir("device", &[])), ("Unknown".to_string(), "N/A".to_string()));
    let d = dir("device", &[("uevent", "X=1\nDRIVER=a\nDRIVER=b\n driver=c\n")]);
    assert_eq!(parse_uevent(&d), ("b".to_string(), "N/A".to_string()));
    let e = dir("device", &[("uevent", "DRIVER=\n")]);
    assert_eq!(parse_uevent(&e), ("".to_string(), "N/A".to_string()));
}

#[test]
fn card_names_are_card_and_digits() {
    assert!(card_name(&cs("card0")));
    assert!(card_name(&cs("card12")));
    assert!(!card_name(&cs("card")));
    assert!(!card_name(&cs("card0-DP-1")));
    assert!(!card_name(&cs("renderD128")));
    assert!(!card_name(&cs("Card0")));
}

#[test]
fn the_card_first_by_name_with_a_device_is_shown() {
    let cards = vec![
        card("card2", &[], None),
        CardEntry { name: "card0".to_string(), device: None },
        card("card10", &[], None),
        card("card1-HDMI-A-1", &[], None),
        card("renderD128", &[], None),
    ];
    // By name, not by number: "card10" comes before "card2".
    assert_eq!(find_gpu_device(&cards), Some(2));
    assert_eq!(find_gpu_device(&cards[..1].iter().map(|c| card(&c.name, &[], None)).collect()), Some(0));
    assert_eq!(find_gpu_device(&Vec::new()), None);
    assert_eq!(
        find_gpu_device(&vec![CardEntry { name: "card0".to_string(), device: None }]),
        None
    );
}

#[test]
fn of_two_cards_with_one_name_the_earlier_is_shown() {
    let cards = vec![card("card1", &[], None), card("card1", &[], None), card("card3", &[], None)];
    assert_eq!(find_gpu_device(&cards), Some(0));
}

#[test]
fn the_first_monitor_is_used() {
    let device = GpuDevice {
        files: dir("device", &[]),
        hwmon: vec![dir("hwmon5", &[]), dir("hwmon1", &[])],
    };
    assert_eq!(find_hwmon(&device).map(|d| d.name.clone()), Some("hwmon5".to_string()));
    let none = GpuDevice { files: dir("device", &[]), hwmon: Vec::new() };
    assert!(find_hwmon(&none).is_none());
}

fn full_card(temp: &str) -> Vec<CardEntry> {
    vec![card(
        "card0",
        &[
            ("gpu_busy_percent", "37\n"),
            ("mem_info_vram_used", "1073741824\n"),
            ("mem_info_vram_total", "8589934592\n"),
            ("pp_dpm_sclk", "0: 500Mhz\n1: 2100Mhz *\n"),
            ("pp_dpm_mclk", "0: 96Mhz *\n1: 1000Mhz\n"),
            ("current_link_speed", "16.0 GT/s PCIe\n"),
            ("current_link_width", "16\n"),
            ("vendor", "0x1002\n"),
            ("uevent", "DRIVER=amdgpu\nPCI_SLOT_NAME=0000:0b:00.0\n"),
        ],
        Some(&[("temp1_input", temp), ("power1_average", "35000000\n"), ("power1_cap", "203000000\n")]),
    )]
}

#[test]
fn a_card_is_read_in_full() {
    let info = GpuInfo::new(5, &full_card("54000\n"));
    assert!(info.available);
    assert_eq!(info.gpu_usage, 37);
    assert_eq!(info.vram_used, 1_073_741_824);
    assert_eq!(info.vram_total, 8_589_934_592);
    assert_eq!(info.gpu_freq_mhz, Some(2100));
    assert_eq!(info.mem_freq_mhz, Some(96));
    assert_eq!(info.power_uw, 35_000_000);
    assert_eq!(info.power_cap_uw, Some(203_000_000));
    assert_eq!(info.temp_millicelsius, 54_000);
    assert_eq!(info.temp_max_millicelsius, 54_000);
    assert_eq!(info.manufacturer, "Advanced Micro Devices, Inc. [AMD/ATI]");
    assert_eq!(info.pci_slot, "0000:0b:00.0");
    assert_eq!(info.driver, "amdgpu");
    assert_eq!(info.pcie_link, "PCIe 4.0 x16");
    assert_eq!(info.last_refresh, 5);
}

#[test]
fn a_bare_card_gets_the_defaults() {
    let info = GpuInfo::new(0, &vec![card("card0", &[], None)]);
    assert!(info.available);
    assert_eq!(info.gpu_usage, 0);
    assert_eq!(info.gpu_freq_mhz, None);
    assert_eq!(info.mem_freq_mhz, None);
    assert_eq!(info.power_cap_uw, None);
    assert_eq!(info.temp_millicelsius, 0);
    assert_eq!(info.manufacturer, "Unknown");
    assert_eq!(info.pci_slot, "N/A");
    assert_eq!(info.driver, "Unknown");
    assert_eq!(info.pcie_link, "N/A");
}

#[test]
fn no_card_at_all_is_a_state_like_any_other() {
    let info = GpuInfo::new(0, &Vec::new());
    assert!(!info.available);
    assert_eq!(info.manufacturer, "Unknown");
    assert_eq!(info.pcie_link, "N/A");
}

#[test]
fn the_highest_temperature_never_goes_down() {
    let mut info = GpuInfo::new(0, &full_card("54000\n"));
    let mut now = 0;
    let mut highest = info.temp_max_millicelsius;
    for (temp, expected) in [("60000", 60_000), ("41000", 60_000), ("bad", 60_000), ("60001", 60_001), ("0", 60_001)] {
        now += REFRESH_INTERVAL_MS;
        info.refresh_if_needed(now, &full_card(temp));
        assert!(info.temp_max_millicelsius >= highest);
        highest = info.temp_max_millicelsius;
        assert_eq!(highest, expected);
    }
    assert_eq!(info.temp_millicelsius, 0);
}

#[test]
fn without_a_monitor_the_sensors_keep_what_was_read() {
    let mut info = GpuInfo::new(0, &full_card("54000\n"));
    info.refresh_if_needed(REFRESH_INTERVAL_MS, &vec![card("card0", &[("gpu_busy_percent", "1")], None)]);
    assert_eq!(info.gpu_usage, 1);
    assert_eq!(info.temp_millicelsius, 54_000);
    assert_eq!(info.power_uw, 35_000_000);
    assert_eq!(info.power_cap_uw, Some(203_000_000));
    assert_eq!(info.pcie_link, "N/A");
}

#[test]
fn without_a_card_the_fields_keep_what_was_read() {
    let mut info = GpuInfo::new(0, &full_card("54000\n"));
    info.refresh_if_needed(REFRESH_INTERVAL_MS, &Vec::new());
    assert!(!info.available);
    assert_eq!(info.gpu_usage, 37);
    assert_eq!(info.driver, "amdgpu");
    assert_eq!(info.last_refresh, REFRESH_INTERVAL_MS);
}

#[test]
fn gpu_polled_within_the_interval_stays_as_it_is() {
    let mut info = GpuInfo::new(100, &full_card("54000\n"));
    let hot = full_card("99000\n");
    assert!(!info.due(100 + REFRESH_INTERVAL_MS - 1));
    info.refresh_if_needed(100 + REFRESH_INTERVAL_MS - 1, &hot);
    info.refresh_if_needed(100 + REFRESH_INTERVAL_MS - 1, &hot);
    assert_eq!(info.temp_millicelsius, 54_000);
    assert_eq!(info.temp_max_millicelsius, 54_000);
    assert_eq!(info.last_refresh, 100);
    assert!(info.due(100 + REFRESH_INTERVAL_MS));
    info.refresh_if_needed(100 + REFRESH_INTERVAL_MS, &hot);
    assert_eq!(info.temp_millicelsius, 99_000);
    assert_eq!(info.last_refresh, 100 + REFRESH_INTERVAL_MS);
}
