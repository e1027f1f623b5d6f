use sonda::model::{Cpu, Dmi, Memory, Os, ProbeError};
use sonda::probe::{net, pci, rfkill, storage, system, usb};
use sonda::run::assemble_output;
use sonda::shell::ShellError;
use sonda::timefmt::now_rfc3339;

fn failure(command: &str) -> ShellError {
    ShellError { command: command.into(), stderr: "boom\n".into(), exit_code: Some(1) }
}

#[test]
fn scan_errors_follow_probe_order() {
    let mut cpu_errs = Vec::new();
    let cpu = system::cpu_info(Some(Err(failure("LC_ALL=C lscpu"))), &mut cpu_errs);
    let mut pci_errs = Vec::new();
    let pci = pci::probe(Some(Err(failure("LC_ALL=C lspci -k -m"))), None, &mut pci_errs);
    let mut usb_errs = Vec::new();
    let usb = usb::probe(None, &mut usb_errs);
    let mut storage_errs = Vec::new();
    let storage = storage::probe(Some(Ok("sda 1 disk sata 0\n".into())), &mut storage_errs);
    let mut net_errs = Vec::new();
    let net = net::probe(Some(Err(failure("LC_ALL=C ip -br link"))), &mut net_errs);
    let mut rfkill_errs = Vec::new();
    let rfkill = rfkill::probe(None, &mut rfkill_errs);
    assert_eq!(cpu, Cpu::default());
    assert!(usb.is_empty() && usb_errs.is_empty());
    assert_eq!(storage.len(), 1);
    let out = assemble_output(
        "2026-02-14T10:00:00Z".into(),
        Os::default(),
        (cpu, cpu_errs),
        Memory::default(),
        (pci, pci_errs),
        (usb, usb_errs),
        (storage, storage_errs),
        (net, net_errs),
        (rfkill, rfkill_errs),
        Dmi::default(),
    );
    assert_eq!(out.command, "scan");
    assert!(out.generated_at.ends_with('Z'));
    let probes: Vec<&str> = out.errors.iter().map(|e: &ProbeError| e.probe.as_str()).collect();
    assert_eq!(probes, vec!["lspci", "ip", "lscpu"]);
    assert_eq!(out.errors[0].message, "`LC_ALL=C lspci -k -m` exited with 1: boom");
    assert!(!out.dmi.available && out.dmi.bios_version.is_none());
}

#[test]
fn pci_probe_without_details_keeps_devices_driverless() {
    let machine = "00:02.0 \"VGA compatible controller\" \"Intel Corporation\" \"UHD Graphics\"\n";
    let mut errs = Vec::new();
    let devs = pci::probe(Some(Ok(machine.into())), Some(Err(failure("LC_ALL=C lspci -k"))), &mut errs);
    assert!(errs.is_empty());
    assert_eq!(devs.len(), 1);
    assert_eq!(devs[0].category, "gpu");
    assert_eq!(devs[0].driver_in_use, None);
    assert!(devs[0].modules.is_empty());
}

#[test]
fn scan_has_contract_shape() {
    let out = assemble_output(
        now_rfc3339(),
        Os::default(),
        (Cpu::default(), Vec::new()),
        Memory::default(),
        (Vec::new(), Vec::new()),
        (Vec::new(), Vec::new()),
        (Vec::new(), Vec::new()),
        (Vec::new(), Vec::new()),
        (Vec::new(), Vec::new()),
        Dmi::default(),
    );
    assert_eq!(out.command, "scan");
    assert!(out.generated_at.ends_with('Z'));
    // Sections exist; emptiness depends on the host's tooling.
    assert!(!out.dmi.available || out.dmi.bios_version.is_some());
}
