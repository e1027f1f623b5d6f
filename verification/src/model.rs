//! The scan result: one type per section of the JSON contract (v1), each
//! with the mathematical value that the contracts speak of.
//!
//! Every piece of information that could not be probed is `None`; the JSON
//! writer turns it into `null`.

use vstd::prelude::*;

verus! {

/// An optional text that is either absent or non-empty: what the contract
/// writes as `null` is never an empty string.
pub open spec fn null_or_filled(v: Option<Seq<char>>) -> bool {
    match v {
        Some(t) => t.len() > 0,
        None => true,
    }
}

/// Operating system identity.
#[derive(Debug, Clone, PartialEq)]
pub struct Os {
    /// `PRETTY_NAME` from /etc/os-release.
    pub distro: Option<String>,
    /// Kernel release, e.g. `6.12.107+deb13-amd64`.
    pub kernel: Option<String>,
    /// Machine architecture, e.g. `x86_64`.
    pub arch: Option<String>,
    /// Host nodename.
    pub hostname: Option<String>,
}

pub struct OsView {
    pub distro: Option<Seq<char>>,
    pub kernel: Option<Seq<char>>,
    pub arch: Option<Seq<char>>,
    pub hostname: Option<Seq<char>>,
}

impl DeepView for Os {
    type V = OsView;

    open spec fn deep_view(&self) -> OsView {
        OsView {
            distro: self.distro.deep_view(),
            kernel: self.kernel.deep_view(),
            arch: self.arch.deep_view(),
            hostname: self.hostname.deep_view(),
        }
    }
}

impl Default for Os {
    fn default() -> (r: Os)
        ensures
            r.distro is None && r.kernel is None && r.arch is None && r.hostname is None,
    {
        Os { distro: None, kernel: None, arch: None, hostname: None }
    }
}

/// CPU summary as reported by `lscpu`.
#[derive(Debug, Clone, PartialEq)]
pub struct Cpu {
    pub model: Option<String>,
    /// Human vendor name (`AuthenticAMD` -> `AMD`, `GenuineIntel` ->
    /// `Intel`); other vendor ids pass through.
    pub vendor: Option<String>,
    /// Physical cores (cores per socket x sockets).
    pub cores: Option<u32>,
    /// Logical threads (`CPU(s)` in lscpu).
    pub threads: Option<u32>,
    /// Maximum frequency in MHz, as the decimal text that lscpu prints; the
    /// JSON writer turns it into a number.
    pub max_mhz: Option<String>,
}

pub struct CpuView {
    pub model: Option<Seq<char>>,
    pub vendor: Option<Seq<char>>,
    pub cores: Option<u32>,
    pub threads: Option<u32>,
    pub max_mhz: Option<Seq<char>>,
}

impl DeepView for Cpu {
    type V = CpuView;

    open spec fn deep_view(&self) -> CpuView {
        CpuView {
            model: self.model.deep_view(),
            vendor: self.vendor.deep_view(),
            cores: self.cores,
            threads: self.threads,
            max_mhz: self.max_mhz.deep_view(),
        }
    }
}

impl Cpu {
    /// The CPU section with nothing known.
    pub open spec fn default_spec() -> Cpu {
        Cpu { model: None, vendor: None, cores: None, threads: None, max_mhz: None }
    }
}

impl Default for Cpu {
    fn default() -> (r: Cpu)
        ensures
            r == Cpu::default_spec(),
    {
        Cpu { model: None, vendor: None, cores: None, threads: None, max_mhz: None }
    }
}

/// Memory summary from /proc/meminfo and /proc/swaps.
#[derive(Debug, Clone, Copy, PartialEq)]
pub struct Memory {
    pub total_bytes: Option<u64>,
    pub available_bytes: Option<u64>,
    pub swap_total_bytes: Option<u64>,
    /// Sum of zram swap devices; `None` when zram is not in use.
    pub zram_total_bytes: Option<u64>,
}

impl Default for Memory {
    fn default() -> (r: Memory)
        ensures
            r.total_bytes is None && r.available_bytes is None && r.swap_total_bytes is None
                && r.zram_total_bytes is None,
    {
        Memory {
            total_bytes: None,
            available_bytes: None,
            swap_total_bytes: None,
            zram_total_bytes: None,
        }
    }
}

/// One PCI device with its kernel driver state.
#[derive(Debug, Clone, PartialEq)]
pub struct PciDevice {
    /// PCI slot address, e.g. `03:00.0`.
    pub slot: String,
    /// pci.ids class name, e.g. `Network controller`.
    pub class: String,
    /// pci.ids vendor name.
    pub vendor: String,
    /// pci.ids device name.
    pub device: String,
    /// Kernel driver bound to the device; `None` when none is loaded.
    pub driver_in_use: Option<String>,
    /// Kernel modules that claim this device.
    pub modules: Vec<String>,
    /// Coarse bucket: gpu | wireless | ethernet | audio | storage | other.
    pub category: String,
}

pub struct PciDeviceView {
    pub slot: Seq<char>,
    pub class: Seq<char>,
    pub vendor: Seq<char>,
    pub device: Seq<char>,
    pub driver_in_use: Option<Seq<char>>,
    pub modules: Seq<Seq<char>>,
    pub category: Seq<char>,
}

impl DeepView for PciDevice {
    type V = PciDeviceView;

    open spec fn deep_view(&self) -> PciDeviceView {
        PciDeviceView {
            slot: self.slot@,
            class: self.class@,
            vendor: self.vendor@,
            device: self.device@,
            driver_in_use: self.driver_in_use.deep_view(),
            modules: self.modules.deep_view(),
            category: self.category@,
        }
    }
}

/// One USB device (`lsusb`).
#[derive(Debug, Clone, PartialEq)]
pub struct UsbDevice {
    /// Bus number with leading zeros kept, e.g. `001`.
    pub bus: String,
    /// Device number on the bus, e.g. `003`.
    pub device: String,
    /// USB vendor id, e.g. `8087`.
    pub vendor_id: String,
    /// USB product id, e.g. `0026`.
    pub product_id: String,
    /// Name that lsusb resolved.
    pub name: String,
}

pub struct UsbDeviceView {
    pub bus: Seq<char>,
    pub device: Seq<char>,
    pub vendor_id: Seq<char>,
    pub product_id: Seq<char>,
    pub name: Seq<char>,
}

impl DeepView for UsbDevice {
    type V = UsbDeviceView;

    open spec fn deep_view(&self) -> UsbDeviceView {
        UsbDeviceView {
            bus: self.bus@,
            device: self.device@,
            vendor_id: self.vendor_id@,
            product_id: self.product_id@,
            name: self.name@,
        }
    }
}

/// One block device (`lsblk`, whole disks only).
#[derive(Debug, Clone, PartialEq)]
pub struct StorageDevice {
    pub name: String,
    /// Device model; `None` when the device has none (e.g. zram).
    pub model: Option<String>,
    pub size_bytes: Option<u64>,
    /// lsblk TYPE, e.g. `disk`; written as `type` in JSON.
    pub device_type: String,
    /// lsblk TRAN, e.g. `nvme`, `sata`, `usb`; `None` when not reported.
    pub transport: Option<String>,
    pub removable: Option<bool>,
}

pub struct StorageDeviceView {
    pub name: Seq<char>,
    pub model: Option<Seq<char>>,
    pub size_bytes: Option<u64>,
    pub device_type: Seq<char>,
    pub transport: Option<Seq<char>>,
    pub removable: Option<bool>,
}

impl DeepView for StorageDevice {
    type V = StorageDeviceView;

    open spec fn deep_view(&self) -> StorageDeviceView {
        StorageDeviceView {
            name: self.name@,
            model: self.model.deep_view(),
            size_bytes: self.size_bytes,
            device_type: self.device_type@,
            transport: self.transport.deep_view(),
            removable: self.removable,
        }
    }
}

/// One network interface (`ip -br link`).
#[derive(Debug, Clone, PartialEq)]
pub struct NetworkLink {
    pub name: String,
    /// Operational state, e.g. `UP`, `DOWN`, `UNKNOWN`.
    pub state: String,
}

pub struct NetworkLinkView {
    pub name: Seq<char>,
    pub state: Seq<char>,
}

impl DeepView for NetworkLink {
    type V = NetworkLinkView;

    open spec fn deep_view(&self) -> NetworkLinkView {
        NetworkLinkView { name: self.name@, state: self.state@ }
    }
}

/// One radio kill switch (`rfkill`).
#[derive(Debug, Clone, PartialEq)]
pub struct RfkillDevice {
    /// rfkill device name, e.g. `phy0: Wireless LAN`.
    pub name: String,
    /// rfkill type, e.g. `wlan`, `bluetooth`; written as `type` in JSON.
    pub device_type: String,
    pub soft_blocked: Option<bool>,
    pub hard_blocked: Option<bool>,
}

pub struct RfkillDeviceView {
    pub name: Seq<char>,
    pub device_type: Seq<char>,
    pub soft_blocked: Option<bool>,
    pub hard_blocked: Option<bool>,
}

impl DeepView for RfkillDevice {
    type V = RfkillDeviceView;

    open spec fn deep_view(&self) -> RfkillDeviceView {
        RfkillDeviceView {
            name: self.name@,
            device_type: self.device_type@,
            soft_blocked: self.soft_blocked,
            hard_blocked: self.hard_blocked,
        }
    }
}

/// Board and BIOS data from sysfs or `dmidecode`.
#[derive(Debug, Clone, PartialEq)]
pub struct Dmi {
    /// True when a source answered and the values are filled.
    pub available: bool,
    pub board_vendor: Option<String>,
    pub board_name: Option<String>,
    pub bios_version: Option<String>,
}

pub struct DmiView {
    pub available: bool,
    pub board_vendor: Option<Seq<char>>,
    pub board_name: Option<Seq<char>>,
    pub bios_version: Option<Seq<char>>,
}

impl DeepView for Dmi {
    type V = DmiView;

    open spec fn deep_view(&self) -> DmiView {
        DmiView {
            available: self.available,
            board_vendor: self.board_vendor.deep_view(),
            board_name: self.board_name.deep_view(),
            bios_version: self.bios_version.deep_view(),
        }
    }
}

impl Default for Dmi {
    fn default() -> (r: Dmi)
        ensures
            !r.available && r.board_vendor is None && r.board_name is None
                && r.bios_version is None,
    {
        Dmi { available: false, board_vendor: None, board_name: None, bios_version: None }
    }
}

/// A probe-level failure; the scan goes on with it recorded.
#[derive(Debug, Clone, PartialEq)]
pub struct ProbeError {
    /// Probe name, e.g. `lscpu`, `lspci`.
    pub probe: String,
    pub message: String,
}

pub struct ProbeErrorView {
    pub probe: Seq<char>,
    pub message: Seq<char>,
}

impl DeepView for ProbeError {
    type V = ProbeErrorView;

    open spec fn deep_view(&self) -> ProbeErrorView {
        ProbeErrorView { probe: self.probe@, message: self.message@ }
    }
}

/// The whole scan, section by section in the order of the JSON contract.
#[derive(Debug, Clone, PartialEq)]
pub struct Output {
    pub command: String,
    pub generated_at: String,
    pub os: Os,
    pub cpu: Cpu,
    pub memory: Memory,
    pub pci_devices: Vec<PciDevice>,
    pub usb_devices: Vec<UsbDevice>,
    pub storage: Vec<StorageDevice>,
    pub network_links: Vec<NetworkLink>,
    pub rfkill_devices: Vec<RfkillDevice>,
    pub dmi: Dmi,
    pub errors: Vec<ProbeError>,
}

pub struct OutputView {
    pub command: Seq<char>,
    pub generated_at: Seq<char>,
    pub os: OsView,
    pub cpu: CpuView,
    pub memory: Memory,
    pub pci_devices: Seq<PciDeviceView>,
    pub usb_devices: Seq<UsbDeviceView>,
    pub storage: Seq<StorageDeviceView>,
    pub network_links: Seq<NetworkLinkView>,
    pub rfkill_devices: Seq<RfkillDeviceView>,
    pub dmi: DmiView,
    pub errors: Seq<ProbeErrorView>,
}

impl DeepView for Output {
    type V = OutputView;

    open spec fn deep_view(&self) -> OutputView {
        OutputView {
            command: self.command@,
            generated_at: self.generated_at@,
            os: self.os.deep_view(),
            cpu: self.cpu.deep_view(),
            memory: self.memory,
            pci_devices: self.pci_devices.deep_view(),
            usb_devices: self.usb_devices.deep_view(),
            storage: self.storage.deep_view(),
            network_links: self.network_links.deep_view(),
            rfkill_devices: self.rfkill_devices.deep_view(),
            dmi: self.dmi.deep_view(),
            errors: self.errors.deep_view(),
        }
    }
}

} // verus!
