use sonda::model::Dmi;
use sonda::probe::dmi::{probe_dmidecode, probe_from_paths, unavailable, DmidecodeOutputs, SysfsDmi};
use sonda::probe::net::parse_links;
use sonda::probe::pci::{category, merge_devices, parse_details, parse_machine};
use sonda::probe::rfkill::parse_rfkill;
use sonda::probe::storage::parse_storage;
use sonda::probe::usb::parse_usb;
use sonda::shell::ShellError;

#[test]
fn unavailable_section_has_all_nulls() {
    let dmi = unavailable();
    assert!(!dmi.available);
    assert_eq!(dmi.board_vendor, None);
    assert_eq!(dmi.board_name, None);
    assert_eq!(dmi.bios_version, None);
}

fn no_entries() -> SysfsDmi {
    SysfsDmi {
        board_vendor: None,
        sys_vendor: None,
        board_name: None,
        product_name: None,
        bios_version: None,
    }
}

#[test]
fn probe_sysfs_missing_dir_falls_back() {
    let missing = no_entries();
    let dmi = probe_from_paths(&missing, unavailable);
    assert!(!dmi.available);
}

#[test]
fn probe_sysfs_reads_present_entries() {
    let entries = SysfsDmi {
        board_vendor: Some("TestVendor\n".into()),
        board_name: Some("TestBoard\n".into()),
        bios_version: Some("v1.2.3\n".into()),
        ..no_entries()
    };
    let dmi = probe_from_paths(&entries, unavailable);
    assert!(dmi.available);
    assert_eq!(dmi.board_vendor.as_deref(), Some("TestVendor"));
    assert_eq!(dmi.board_name.as_deref(), Some("TestBoard"));
    assert_eq!(dmi.bios_version.as_deref(), Some("v1.2.3"));
}

#[test]
fn probe_sysfs_falls_back_to_sys_vendor_and_product_name() {
    let entries = SysfsDmi {
        sys_vendor: Some("SystemVendor\n".into()),
        product_name: Some("LaptopModel\n".into()),
        ..no_entries()
    };
    let dmi = probe_from_paths(&entries, unavailable);
    assert!(dmi.available);
    assert_eq!(dmi.board_vendor.as_deref(), Some("SystemVendor"));
    assert_eq!(dmi.board_name.as_deref(), Some("LaptopModel"));
    assert_eq!(dmi.bios_version, None);
}

#[test]
fn blank_sysfs_entry_falls_back() {
    let entries = SysfsDmi {
        sys_vendor: Some("SystemVendor\n".into()),
        product_name: Some("LaptopModel\n".into()),
        board_vendor: Some("   \n".into()),
        ..no_entries()
    };
    let dmi = probe_from_paths(&entries, || panic!("sysfs answered"));
    assert!(dmi.available);
    assert_eq!(dmi.board_vendor.as_deref(), Some("SystemVendor"));
    assert_eq!(dmi.board_name.as_deref(), Some("LaptopModel"));
    assert_eq!(dmi.bios_version, None);
}

#[test]
fn dmidecode_outputs_fill_the_section() {
    let failed = ShellError { command: "x".into(), stderr: String::new(), exit_code: Some(1) };
    let dmi = probe_dmidecode(Some(DmidecodeOutputs {
        baseboard_manufacturer: Ok("  LENOVO \n".into()),
        baseboard_product_name: Ok("\n".into()),
        bios_version: Err(failed),
    }));
    assert_eq!(
        dmi,
        Dmi {
            available: true,
            board_vendor: Some("LENOVO".into()),
            board_name: None,
            bios_version: None
        }
    );
    assert_eq!(probe_dmidecode(None), unavailable());
}

#[test]
fn parses_brief_link_rows() {
    let text = "lo               UNKNOWN        00:00:00:00:00:00 <LOOPBACK,UP,LOWER_UP> \nwlo1             UP             86:f2:f5:9f:21:f1 <BROADCAST,MULTICAST,UP,LOWER_UP> \n";
    let links = parse_links(text);
    assert_eq!(links.len(), 2);
    assert_eq!(links[0].name, "lo");
    assert_eq!(links[0].state, "UNKNOWN");
    assert_eq!(links[1].name, "wlo1");
    assert_eq!(links[1].state, "UP");
}

#[test]
fn skips_empty_and_short_lines() {
    assert!(parse_links("\nonlyname\n").is_empty());
}

const MACHINE: &str = "01:00.0 \"Network controller\" \"Realtek Semiconductor Co., Ltd.\" \"RTL8821CE 802.11ac PCIe Wireless Network Adapter\" -p00 \"Hewlett-Packard Company\" \"Device 884d\"\n03:00.0 \"VGA compatible controller\" \"Advanced Micro Devices, Inc. [AMD/ATI]\" \"Lucienne\" -rc3 -p00 \"Hewlett-Packard Company\" \"Device 887a\"\n";

const DETAILS: &str = "01:00.0 Network controller: Realtek Semiconductor Co., Ltd. RTL8821CE 802.11ac PCIe Wireless Network Adapter\n\tSubsystem: Hewlett-Packard Company Device 884d\n\tKernel driver in use: rtw_8821ce\n\tKernel modules: rtw88_8821ce\n02:00.0 Non-Volatile memory controller: KIOXIA Corporation NVMe SSD Controller BG4 (DRAM-less)\n\tKernel driver in use: nvme\n";

#[test]
fn parses_quoted_machine_fields() {
    let devices = parse_machine(MACHINE);
    assert_eq!(devices.len(), 2);
    assert_eq!(devices[0].0, "01:00.0");
    assert_eq!(devices[0].1, "Network controller");
    assert_eq!(devices[0].2, "Realtek Semiconductor Co., Ltd.");
    assert_eq!(
        devices[0].3,
        "RTL8821CE 802.11ac PCIe Wireless Network Adapter"
    );
    assert_eq!(devices[1].3, "Lucienne");
}

#[test]
fn parses_driver_and_modules_per_slot() {
    let details = parse_details(DETAILS);
    let wifi = details.get("01:00.0").unwrap();
    assert_eq!(wifi.driver.as_deref(), Some("rtw_8821ce"));
    assert_eq!(wifi.modules, vec!["rtw88_8821ce"]);
    let nvme = details.get("02:00.0").unwrap();
    assert_eq!(nvme.driver.as_deref(), Some("nvme"));
    assert!(nvme.modules.is_empty());
}

#[test]
fn splits_and_trims_module_lists() {
    let details = parse_details("00:1f.3 Audio device: Intel\n\tKernel modules: snd_hda_intel, snd_sof_pci_intel_tgl,,\n");
    let audio = details.get("00:1f.3").unwrap();
    assert_eq!(audio.driver, None);
    assert_eq!(audio.modules, vec!["snd_hda_intel", "snd_sof_pci_intel_tgl"]);
    assert!(details.get("01:00.0").is_none());
}

#[test]
fn merges_driver_into_devices() {
    let machine = parse_machine(MACHINE);
    let details = parse_details(DETAILS);
    let merged = merge_devices(machine, &details);
    assert_eq!(merged[0].driver_in_use.as_deref(), Some("rtw_8821ce"));
    assert_eq!(merged[0].category, "wireless");
    assert_eq!(merged[1].category, "gpu");
    assert_eq!(merged[1].driver_in_use, None);
}

#[test]
fn class_category_mapping() {
    assert_eq!(category("VGA compatible controller"), "gpu");
    assert_eq!(category("3D controller"), "gpu");
    assert_eq!(category("Display controller"), "gpu");
    assert_eq!(category("Network controller"), "wireless");
    assert_eq!(category("Ethernet controller"), "ethernet");
    assert_eq!(category("Audio device"), "audio");
    assert_eq!(category("Non-Volatile memory controller"), "storage");
    assert_eq!(category("SATA controller"), "storage");
    assert_eq!(category("PCI bridge"), "other");
    assert_eq!(category("Host bridge"), "other");
}

#[test]
fn categories_match_whole_class_names() {
    assert_eq!(category("Multimedia video controller"), "other");
    assert_eq!(category("Non-VGA unclassified device"), "other");
    assert_eq!(category("IDE interface"), "storage");
    assert_eq!(category("RAID bus controller"), "storage");
    assert_eq!(category("vga compatible controller"), "gpu");
    assert_eq!(category("Multimedia audio controller"), "audio");
    assert_eq!(category("Serial Attached SCSI controller"), "other");
}

#[test]
fn parses_rfkill_blocks() {
    let text = "0: phy0: Wireless LAN\n\tType: wlan\n\tSoft blocked: no\n\tHard blocked: no\n1: hci0: Bluetooth\n\tType: bluetooth\n\tSoft blocked: yes\n\tHard blocked: no\n";
    let devices = parse_rfkill(text);
    assert_eq!(devices.len(), 2);
    assert_eq!(devices[0].name, "phy0: Wireless LAN");
    assert_eq!(devices[0].device_type, "wlan");
    assert_eq!(devices[0].soft_blocked, Some(false));
    assert_eq!(devices[1].name, "hci0: Bluetooth");
    assert_eq!(devices[1].soft_blocked, Some(true));
    assert_eq!(devices[1].hard_blocked, Some(false));
}

#[test]
fn unknown_bool_values_stay_none() {
    let text = "0: phy0: Wireless LAN\n\tSoft blocked: maybe\n";
    let devices = parse_rfkill(text);
    assert_eq!(devices[0].soft_blocked, None);
    assert_eq!(devices[0].device_type, "unknown");
}

const LSBLK: &str = "zram0                           4294967296 disk        0\nnvme0n1   KBG40ZNV256G KIOXIA 256060514304 disk nvme   0\nnvme0n1p1                       1023410176 part nvme   0\n";

#[test]
fn keeps_disks_with_and_without_model_transport() {
    let devices = parse_storage(LSBLK);
    assert_eq!(devices.len(), 2);
    let zram = &devices[0];
    assert_eq!(zram.name, "zram0");
    assert_eq!(zram.model, None);
    assert_eq!(zram.transport, None);
    assert_eq!(zram.size_bytes, Some(4_294_967_296));
    let nvme = &devices[1];
    assert_eq!(nvme.name, "nvme0n1");
    assert_eq!(nvme.model.as_deref(), Some("KBG40ZNV256G KIOXIA"));
    assert_eq!(nvme.transport.as_deref(), Some("nvme"));
    assert_eq!(nvme.size_bytes, Some(256_060_514_304));
    assert_eq!(nvme.removable, Some(false));
}

#[test]
fn sata_disk_without_model() {
    let devices = parse_storage("sda                      500107862016 disk sata   0\n");
    assert_eq!(devices.len(), 1);
    assert_eq!(devices[0].name, "sda");
    assert_eq!(devices[0].model, None);
    assert_eq!(devices[0].transport.as_deref(), Some("sata"));
}

#[test]
fn skips_partitions_and_garbage() {
    assert!(parse_storage("nvme0n1p1   1023410176 part nvme   0\nshort line\n").is_empty());
}

#[test]
fn parses_lsusb_lines() {
    let text = "Bus 001 Device 001: ID 1d6b:0002 Linux Foundation 2.0 root hub\nBus 001 Device 003: ID 0bda:b00e Realtek Semiconductor Corp. Bluetooth Radio \n";
    let devices = parse_usb(text);
    assert_eq!(devices.len(), 2);
    assert_eq!(devices[1].bus, "001");
    assert_eq!(devices[1].device, "003");
    assert_eq!(devices[1].vendor_id, "0bda");
    assert_eq!(devices[1].product_id, "b00e");
    assert_eq!(
        devices[1].name,
        "Realtek Semiconductor Corp. Bluetooth Radio"
    );
}

#[test]
fn skips_unparseable_lines() {
    let devices = parse_usb("garbage\nBus 001 Device 002: ID 30c9:0013\n");
    // Line without a name after the id is skipped.
    assert!(devices.is_empty());
}
