use sonda::probe::system::{
    lscpu_cores_fit_exec, memory_files_fit_exec, memory_info, os_info, parse_lscpu,
    parse_meminfo, parse_os_release, parse_swaps_zram, parse_uname,
};
use sonda::shell::ShellError;

#[test]
fn parses_pretty_name_quoted() {
    let text = "PRETTY_NAME=\"Debian GNU/Linux 13 (trixie)\"\nNAME=\"Debian GNU/Linux\"\n";
    assert_eq!(
        parse_os_release(text).as_deref(),
        Some("Debian GNU/Linux 13 (trixie)")
    );
}

#[test]
fn falls_back_to_name_when_pretty_missing() {
    let text = "NAME=\"Arch Linux\"\nID=arch\n";
    assert_eq!(parse_os_release(text).as_deref(), Some("Arch Linux"));
    assert_eq!(parse_os_release("ID=arch\n"), None);
}

#[test]
fn empty_pretty_name_is_null_without_fallback() {
    assert_eq!(parse_os_release("PRETTY_NAME=\"\"\nNAME=Arch\n"), None);
}

#[test]
fn parses_uname_fields() {
    let os = parse_uname("Linux fixy 6.12.107+deb13-amd64 x86_64 GNU/Linux\n").unwrap();
    assert_eq!(os.hostname.as_deref(), Some("fixy"));
    assert_eq!(os.kernel.as_deref(), Some("6.12.107+deb13-amd64"));
    assert_eq!(os.arch.as_deref(), Some("x86_64"));
    assert_eq!(os.distro, None);
}

#[test]
fn rejects_short_uname_output() {
    assert_eq!(parse_uname("Linux x86_64"), None);
}

#[test]
fn os_info_combines_release_and_uname() {
    let os = os_info(
        Some("  PRETTY_NAME=\"Debian GNU/Linux 13 (trixie)\"\n\n".to_string()),
        Ok("Linux fixy 6.12.107+deb13-amd64 x86_64 GNU/Linux\n".to_string()),
    );
    assert_eq!(os.distro.as_deref(), Some("Debian GNU/Linux 13 (trixie)"));
    assert_eq!(os.hostname.as_deref(), Some("fixy"));
    let failed = os_info(
        None,
        Err(ShellError { command: "uname -snrmo".into(), stderr: String::new(), exit_code: Some(1) }),
    );
    assert_eq!(failed, sonda::model::Os::default());
}

const LSCPU: &str = "CPU(s):                                  8
Vendor ID:                               AuthenticAMD
Model name:                              AMD Ryzen 3 5300U with Radeon Graphics
Core(s) per socket:                      4
Socket(s):                               1
CPU(s) scaling MHz:                      77%
CPU max MHz:                             3900.0000
";

#[test]
fn parses_lscpu_core_fields() {
    let cpu = parse_lscpu(LSCPU);
    assert_eq!(
        cpu.model.as_deref(),
        Some("AMD Ryzen 3 5300U with Radeon Graphics")
    );
    assert_eq!(cpu.vendor.as_deref(), Some("AMD"));
    assert_eq!(cpu.cores, Some(4));
    assert_eq!(cpu.threads, Some(8));
    assert_eq!(
        cpu.max_mhz.as_deref().and_then(|v| v.parse::<f64>().ok()),
        Some(3900.0)
    );
}

#[test]
fn lscpu_exact_key_matching_ignores_prefixed_keys() {
    // "CPU(s) scaling MHz" must not be taken for "CPU(s)".
    let cpu = parse_lscpu("CPU(s) scaling MHz: 77%\n");
    assert_eq!(cpu.threads, None);
}

#[test]
fn lscpu_multiplies_sockets_when_present() {
    let cpu = parse_lscpu(
        "CPU(s): 32\nCore(s) per socket: 8\nSocket(s): 4\nVendor ID: GenuineIntel\n",
    );
    assert_eq!(cpu.cores, Some(32));
    assert_eq!(cpu.vendor.as_deref(), Some("Intel"));
}

#[test]
fn lscpu_garbage_yields_nulls() {
    let cpu = parse_lscpu("nothing useful here\n");
    assert_eq!(cpu.model, None);
    assert_eq!(cpu.cores, None);
    assert_eq!(cpu.threads, None);
}

#[test]
fn lscpu_core_overflow_is_detected() {
    assert!(lscpu_cores_fit_exec(LSCPU));
    assert!(!lscpu_cores_fit_exec("Core(s) per socket: 4294967295\nSocket(s): 2\n"));
    assert!(lscpu_cores_fit_exec("Core(s) per socket: 4294967295\n"));
}

#[test]
fn parses_meminfo_kb_fields() {
    let mem = parse_meminfo(
        "MemTotal:       11555932 kB\nMemAvailable:    5233016 kB\nSwapTotal:      16069624 kB\nHugePages_Total:       0\n",
    );
    assert_eq!(mem.total_bytes, Some(11_833_274_368));
    assert_eq!(mem.available_bytes, Some(5_358_608_384));
    assert_eq!(mem.swap_total_bytes, Some(16_455_294_976));
}

#[test]
fn meminfo_missing_available_falls_back_to_free() {
    let mem = parse_meminfo("MemTotal: 1000 kB\nMemFree: 250 kB\n");
    assert_eq!(mem.available_bytes, Some(256_000));
}

#[test]
fn sums_zram_swaps_in_bytes() {
    let text = "Filename\t\t\t\tType\t\tSize\t\tUsed\t\tPriority\n/dev/zram0                              partition\t4194300\t\t4193500\t\t100\n/dev/nvme0n1p3                          partition\t11875324\t3631928\t\t-2\n";
    assert_eq!(parse_swaps_zram(text), Some(4_294_963_200));
}

#[test]
fn no_zram_yields_none() {
    let text = "Filename\t\t\t\tType\t\tSize\t\tUsed\t\tPriority\n/dev/sda2                               partition\t4194300\t0\t\t-2\n";
    assert_eq!(parse_swaps_zram(text), None);
}

#[test]
fn memory_info_reads_both_files() {
    let meminfo = Some("MemTotal: 1000 kB\nMemFree: 250 kB\n".to_string());
    let swaps = Some("Filename Type Size Used Priority\n/dev/zram0 partition 4 0 100\n/dev/zram1 partition 6 0 100\n".to_string());
    assert!(memory_files_fit_exec(&meminfo, &swaps));
    let mem = memory_info(meminfo, swaps);
    assert_eq!(mem.total_bytes, Some(1_024_000));
    assert_eq!(mem.zram_total_bytes, Some(10_240));
    assert!(!memory_files_fit_exec(&Some("MemTotal: 18446744073709551615 kB\n".to_string()), &None));
}
