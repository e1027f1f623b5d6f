//! Concrete instances of the library's laws.

use sonda::probe::pci::{category, parse_details};
use sonda::probe::storage::parse_storage;
use sonda::probe::system::{os_info, parse_lscpu};
use sonda::shell::{quote, ShellError};
use sonda::timefmt::format_epoch;
use sonda::update::{
    download_command, extract_command, is_newer, release_command, target_triple,
};

#[test]
fn no_version_is_newer_than_itself() {
    for v in ["0.2.0", "1", "v1.2", "unknown", "", "1..2"] {
        assert!(!is_newer(v, v), "{v}");
    }
}

#[test]
fn newer_is_one_sided() {
    let pairs = [("0.3.0", "0.2.9"), ("10", "9"), ("1.0.1", "1"), ("b", "a")];
    for (a, b) in pairs {
        assert!(is_newer(a, b));
        assert!(!is_newer(b, a));
    }
}

#[test]
fn trailing_zero_segment_changes_nothing() {
    assert!(!is_newer("1.2.0", "1.2"));
    assert!(!is_newer("1.2", "1.2.0"));
    assert_eq!(is_newer("1.3.0", "1.2"), is_newer("1.3", "1.2"));
    assert_eq!(is_newer("1.3", "1.2.0"), is_newer("1.3", "1.2"));
}

#[test]
fn plain_numbers_compare_as_numbers() {
    assert!(is_newer("10", "9"));
    assert!(!is_newer("9", "10"));
    assert!(is_newer("18446744073709551615", "18446744073709551614"));
}

#[test]
fn timestamps_have_the_fixed_shape() {
    for secs in [0u64, 951_782_400, 1_771_063_200, 253_402_300_799] {
        let s = format_epoch(secs);
        let b: Vec<char> = s.chars().collect();
        assert_eq!(b.len(), 20, "{s}");
        for (i, c) in b.iter().enumerate() {
            match i {
                4 | 7 => assert_eq!(*c, '-'),
                10 => assert_eq!(*c, 'T'),
                13 | 16 => assert_eq!(*c, ':'),
                19 => assert_eq!(*c, 'Z'),
                _ => assert!(c.is_ascii_digit(), "{s}"),
            }
        }
    }
    assert_eq!(format_epoch(253_402_300_799), "9999-12-31T23:59:59Z");
}

#[test]
fn quoted_values_hold_their_quotes_escaped() {
    assert_eq!(quote(""), "''");
    assert_eq!(quote("a b;c"), "'a b;c'");
    assert_eq!(quote("''"), "''\\'''\\'''");
}

#[test]
fn blank_values_are_null() {
    let os = os_info(
        Some("PRETTY_NAME=\"\"\n".to_owned()),
        Ok("Linux host 6.1 x86_64 GNU/Linux\n".to_owned()),
    );
    assert_eq!(os.distro, None);
    assert_eq!(os.hostname.as_deref(), Some("host"));
    let cpu = parse_lscpu("Model name:   \nVendor ID: GenuineIntel\n");
    assert_eq!(cpu.model, None);
    assert_eq!(cpu.vendor.as_deref(), Some("Intel"));
    let disks = parse_storage("sda                500107862016 disk        1\n");
    assert_eq!(disks.len(), 1);
    assert_eq!(disks[0].model, None);
    assert_eq!(disks[0].transport, None);
    assert_eq!(disks[0].removable, Some(true));
    let details = parse_details("00:02.0 VGA: Intel\n\tKernel driver in use: i915\n\tKernel modules: , i915 ,\n");
    let d = details.get("00:02.0").unwrap();
    assert_eq!(d.driver.as_deref(), Some("i915"));
    assert_eq!(d.modules, vec!["i915".to_owned()]);
}

#[test]
fn blank_vendor_id_is_null() {
    let cpu = parse_lscpu("Vendor ID:\n");
    assert_eq!(cpu.vendor, None);
    let cpu = parse_lscpu("Vendor ID:   AuthenticAMD  \n");
    assert_eq!(cpu.vendor.as_deref(), Some("AMD"));
}

#[test]
fn storage_keeps_whole_disks_only() {
    let disks = parse_storage("sda 1000 disk sata 0\nsda1 500 part sata 0\nsr0 1024 rom usb 1\n");
    assert_eq!(disks.len(), 1);
    assert!(disks.iter().all(|d| d.device_type == "disk"));
}

#[test]
fn categories_are_the_six_of_the_contract() {
    let classes = [
        "VGA compatible controller",
        "3D controller",
        "Network controller",
        "Ethernet controller",
        "Audio device",
        "Non-Volatile memory controller",
        "SATA controller",
        "RAID bus controller",
        "Host bridge",
        "",
    ];
    let allowed = ["gpu", "wireless", "ethernet", "audio", "storage", "other"];
    for c in classes {
        assert!(allowed.contains(&category(c)), "{c}");
    }
    assert_eq!(category("Host bridge"), "other");
}

#[test]
fn targets_are_known_release_targets() {
    assert_eq!(target_triple("macos", "aarch64"), Some("aarch64-apple-darwin"));
    assert_eq!(target_triple("linux", "aarch64"), Some("aarch64-unknown-linux-gnu"));
    assert_eq!(target_triple("macos", "x86_64"), Some("x86_64-apple-darwin"));
    assert_eq!(target_triple("windows", "x86_64"), None);
    assert_eq!(target_triple("linux", "riscv64"), None);
}

#[test]
fn update_commands_quote_their_arguments() {
    assert_eq!(
        release_command(),
        "curl -fsSL 'https://api.github.com/repos/eddraz/sonda/releases/latest' -H 'User-Agent: sonda' -H 'Accept: application/vnd.github+json'"
    );
    assert_eq!(
        download_command("/tmp/x/sonda.tar.gz", "https://e.com/a'b"),
        "curl -fsSL -o '/tmp/x/sonda.tar.gz' 'https://e.com/a'\\''b'"
    );
    assert_eq!(extract_command("/tmp/a b.tgz", "/tmp"), "tar xzf '/tmp/a b.tgz' -C '/tmp'");
}

#[test]
fn failed_commands_read_as_messages() {
    let e = ShellError { command: "ip".into(), stderr: "  \n".into(), exit_code: Some(-1) };
    assert_eq!(e.message(), "`ip` exited with -1");
}

#[test]
fn later_instants_get_later_stamps() {
    let instants = [0u64, 59, 60, 3599, 3600, 86_399, 86_400, 951_782_400, 1_771_063_200, 253_402_300_799];
    for w in instants.windows(2) {
        assert!(format_epoch(w[0]) < format_epoch(w[1]), "{} {}", w[0], w[1]);
    }
}
