//! Scan assembly: the probes' results put together as the contract's
//! output, errors in the contract's probe order.

use vstd::prelude::*;

use crate::model::{
    null_or_filled, Cpu, Dmi, Memory, NetworkLink, Os, Output, OutputView, PciDevice, ProbeError,
    RfkillDevice, StorageDevice, UsbDevice,
};
use crate::probe::dmi::{scalar_of, sysfs_dmi_of, SysfsDmi};
use crate::probe::pci::{detail_filled, details_of, lemma_details_filled, merge};
use crate::probe::storage::{lemma_storage_disks, storage_of};
use crate::probe::system::{cpu_of, os_info_of};
use crate::shell::ShellError;
use crate::text::lemma_words_named;

verus! {

/// A section and the failures its probe recorded.
pub type Probed<T> = (T, Vec<ProbeError>);

/// The whole scan from the probes' results: `command` is `scan`, each
/// section is its probe's result, and `errors` holds the failures of pci,
/// usb, storage, network, rfkill and cpu, in that order.
pub fn assemble_output(
    generated_at: String,
    os: Os,
    cpu: Probed<Cpu>,
    memory: Memory,
    pci: Probed<Vec<PciDevice>>,
    usb: Probed<Vec<UsbDevice>>,
    storage: Probed<Vec<StorageDevice>>,
    network: Probed<Vec<NetworkLink>>,
    rfkill: Probed<Vec<RfkillDevice>>,
    dmi: Dmi,
) -> (r: Output)
    ensures
        r.deep_view() == (OutputView {
            command: "scan"@,
            generated_at: generated_at@,
            os: os.deep_view(),
            cpu: cpu.0.deep_view(),
            memory,
            pci_devices: pci.0.deep_view(),
            usb_devices: usb.0.deep_view(),
            storage: storage.0.deep_view(),
            network_links: network.0.deep_view(),
            rfkill_devices: rfkill.0.deep_view(),
            dmi: dmi.deep_view(),
            errors: pci.1.deep_view() + usb.1.deep_view() + storage.1.deep_view()
                + network.1.deep_view() + rfkill.1.deep_view() + cpu.1.deep_view(),
        }),
{
    let (cpu, mut cpu_errs) = cpu;
    let (pci_devices, mut pci_errs) = pci;
    let (usb_devices, mut usb_errs) = usb;
    let (storage_devices, mut storage_errs) = storage;
    let (network_links, mut net_errs) = network;
    let (rfkill_devices, mut rfkill_errs) = rfkill;
    let ghost expected = pci_errs.deep_view() + usb_errs.deep_view() + storage_errs.deep_view()
        + net_errs.deep_view() + rfkill_errs.deep_view() + cpu_errs.deep_view();
    let ghost all = pci_errs@ + usb_errs@ + storage_errs@ + net_errs@ + rfkill_errs@ + cpu_errs@;
    let mut errors: Vec<ProbeError> = Vec::new();
    errors.append(&mut pci_errs);
    errors.append(&mut usb_errs);
    errors.append(&mut storage_errs);
    errors.append(&mut net_errs);
    errors.append(&mut rfkill_errs);
    errors.append(&mut cpu_errs);
    assert(errors@ =~= all);
    assert(errors.deep_view() =~= expected);
    Output {
        command: "scan".to_owned(),
        generated_at,
        os,
        cpu,
        memory,
        pci_devices,
        usb_devices,
        storage: storage_devices,
        network_links,
        rfkill_devices,
        dmi,
        errors,
    }
}

/// Law: what a probe could not read is `null`, never an empty string, in
/// the OS, CPU, PCI, storage and DMI sections.
pub proof fn lemma_absent_values_are_null(
    os_release: Option<Seq<char>>,
    uname: Option<Seq<char>>,
    lscpu: Seq<char>,
    machine: Seq<(Seq<char>, Seq<char>, Seq<char>, Seq<char>)>,
    lspci_k: Seq<char>,
    lsblk: Seq<char>,
    sysfs: SysfsDmi,
    dmidecode: Result<String, ShellError>,
)
    ensures
        null_or_filled(os_info_of(os_release, uname).distro),
        null_or_filled(os_info_of(os_release, uname).kernel),
        null_or_filled(os_info_of(os_release, uname).arch),
        null_or_filled(os_info_of(os_release, uname).hostname),
        null_or_filled(cpu_of(lscpu).model),
        null_or_filled(cpu_of(lscpu).vendor),
        forall|i: int|
            0 <= i < machine.len() ==> null_or_filled(
                (#[trigger] merge(machine, details_of(lspci_k))[i]).driver_in_use,
            ),
        forall|i: int|
            0 <= i < storage_of(lsblk).len() ==> null_or_filled(
                (#[trigger] storage_of(lsblk)[i]).model,
            ) && null_or_filled(storage_of(lsblk)[i].transport),
        sysfs_dmi_of(sysfs) matches Some(d) ==> null_or_filled(d.board_vendor) && null_or_filled(
            d.board_name,
        ) && null_or_filled(d.bios_version),
        null_or_filled(scalar_of(dmidecode)),
{
    if let Some(u) = uname {
        lemma_words_named(u);
    }
    reveal_strlit("AuthenticAMD");
    reveal_strlit("GenuineIntel");
    reveal_strlit("AMD");
    reveal_strlit("Intel");
    lemma_details_filled(lspci_k);
    lemma_storage_disks(lsblk);
    let details = details_of(lspci_k);
    assert forall|i: int| 0 <= i < machine.len() implies null_or_filled(
        (#[trigger] merge(machine, details)[i]).driver_in_use,
    ) by {
        let slot = machine[i].0;
        if details.contains_key(slot) {
            assert(detail_filled(details[slot]));
        }
    }
}

} // verus!
