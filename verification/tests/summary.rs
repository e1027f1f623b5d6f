use sonda::model::{Cpu, Dmi, Memory, Os, Output, PciDevice, StorageDevice};
use sonda::summary::{device_short, human_size, model_short, render, vendor_short};

fn fixture() -> Output {
    Output {
        command: "scan".into(),
        generated_at: "2026-02-14T10:00:00Z".into(),
        os: Os {
            distro: Some("Debian GNU/Linux 13 (trixie)".into()),
            kernel: Some("6.12.107+deb13-amd64".into()),
            arch: Some("x86_64".into()),
            hostname: Some("fixy".into()),
        },
        cpu: Cpu {
            model: Some("AMD Ryzen 3 5300U with Radeon Graphics".into()),
            vendor: Some("AMD".into()),
            cores: Some(4),
            threads: Some(8),
            max_mhz: Some("3900.0".into()),
        },
        memory: Memory {
            total_bytes: Some(11_833_274_368),
            available_bytes: Some(5_358_608_384),
            swap_total_bytes: Some(16_455_294_976),
            zram_total_bytes: Some(4_294_963_200),
        },
        pci_devices: vec![
            PciDevice {
                slot: "01:00.0".into(),
                class: "Network controller".into(),
                vendor: "Realtek Semiconductor Co., Ltd.".into(),
                device: "RTL8821CE 802.11ac PCIe Wireless Network Adapter".into(),
                driver_in_use: Some("rtw_8821ce".into()),
                modules: vec!["rtw88_8821ce".into()],
                category: "wireless".into(),
            },
            PciDevice {
                slot: "03:00.0".into(),
                class: "VGA compatible controller".into(),
                vendor: "Advanced Micro Devices, Inc. [AMD/ATI]".into(),
                device: "Lucienne".into(),
                driver_in_use: Some("amdgpu".into()),
                modules: vec!["amdgpu".into()],
                category: "gpu".into(),
            },
        ],
        usb_devices: Vec::new(),
        storage: vec![
            StorageDevice {
                name: "zram0".into(),
                model: None,
                size_bytes: Some(4_294_967_296),
                device_type: "disk".into(),
                transport: None,
                removable: Some(false),
            },
            StorageDevice {
                name: "nvme0n1".into(),
                model: Some("KBG40ZNV256G KIOXIA".into()),
                size_bytes: Some(256_060_514_304),
                device_type: "disk".into(),
                transport: Some("nvme".into()),
                removable: Some(false),
            },
        ],
        network_links: Vec::new(),
        rfkill_devices: Vec::new(),
        dmi: Dmi {
            available: false,
            board_vendor: None,
            board_name: None,
            bios_version: None,
        },
        errors: Vec::new(),
    }
}

#[test]
fn renders_demo_shape() {
    let out = render(&fixture());
    let lines: Vec<&str> = out.lines().collect();
    assert_eq!(lines[0], "GPU: AMD Lucienne (iGPU) — driver: amdgpu ✓");
    assert_eq!(lines[1], "WiFi: Realtek RTL8821CE — driver: rtw_8821ce ✓");
    assert_eq!(
        lines[2],
        "Kernel: 6.12.107+deb13-amd64 · x86_64 · 4 cores / 8 threads · NVMe KIOXIA 256G + zram 4G"
    );
}

#[test]
fn missing_gpu_and_driver_degrade() {
    let mut out = fixture();
    out.pci_devices.clear();
    out.pci_devices.push(PciDevice {
        slot: "00:1f.6".into(),
        class: "Ethernet controller".into(),
        vendor: "Intel Corporation".into(),
        device: "Ethernet Connection (2) I219-V".into(),
        driver_in_use: None,
        modules: vec!["e1000e".into()],
        category: "ethernet".into(),
    });
    let rendered = render(&out);
    assert!(rendered.contains("GPU: not detected"));
    assert!(rendered.contains("WiFi: not detected"));
}

#[test]
fn human_sizes_round_decimal() {
    assert_eq!(human_size(256_060_514_304), "256G");
    assert_eq!(human_size(4_294_967_296), "4G");
    assert_eq!(human_size(512), "512B");
    assert_eq!(human_size(1_500_000_000), "2G");
}

#[test]
fn human_sizes_cover_every_unit() {
    assert_eq!(human_size(1_999_999_999_999), "1T");
    assert_eq!(human_size(1_499_999), "1M");
    assert_eq!(human_size(1_500), "2K");
    assert_eq!(human_size(999), "999B");
    assert_eq!(human_size(0), "0B");
}

#[test]
fn vendor_shortening() {
    assert_eq!(
        vendor_short("Advanced Micro Devices, Inc. [AMD/ATI]"),
        "AMD"
    );
    assert_eq!(vendor_short("Realtek Semiconductor Co., Ltd."), "Realtek");
    assert_eq!(vendor_short("Intel Corporation"), "Intel");
    assert_eq!(vendor_short("Mystery Chips Inc."), "Mystery");
    assert_eq!(vendor_short(""), "");
}

#[test]
fn device_shortening() {
    assert_eq!(device_short("NVIDIA Corporation", "GA106M [GeForce RTX 3060 Mobile]"), "GA106M");
    assert_eq!(device_short("Intel Corporation", "Intel Corporation Ethernet Connection (2) I219-V"), "Ethernet");
    assert_eq!(device_short("X", " (rev 1)"), " (rev 1)");
}

#[test]
fn model_shortening_drops_words_with_digits() {
    let disk = |model: Option<&str>| StorageDevice {
        name: "sda".into(),
        model: model.map(|m| m.to_string()),
        size_bytes: None,
        device_type: "disk".into(),
        transport: None,
        removable: None,
    };
    assert_eq!(model_short(&disk(Some("KBG40ZNV256G KIOXIA"))).as_deref(), Some("KIOXIA"));
    assert_eq!(model_short(&disk(Some("ST1000 2000"))).as_deref(), Some("ST1000 2000"));
    assert_eq!(model_short(&disk(None)), None);
}

#[test]
fn renders_multi_gpu_lines() {
    let mut out = fixture();
    out.pci_devices.push(PciDevice {
        slot: "01:00.0".into(),
        class: "VGA compatible controller".into(),
        vendor: "NVIDIA Corporation".into(),
        device: "GA106M [GeForce RTX 3060 Mobile]".into(),
        driver_in_use: Some("nvidia".into()),
        modules: vec!["nvidia".into()],
        category: "gpu".into(),
    });
    let rendered = render(&out);
    assert!(rendered.contains("GPU: AMD Lucienne (iGPU) — driver: amdgpu ✓"));
    assert!(rendered.contains("GPU: NVIDIA GA106M (dGPU) — driver: nvidia ✓"));
}

#[test]
fn kernel_line_degrades_without_facts() {
    let mut out = fixture();
    out.os.kernel = None;
    out.os.arch = None;
    out.cpu.cores = None;
    out.storage.clear();
    out.memory.zram_total_bytes = None;
    out.pci_devices[1].driver_in_use = None;
    let rendered = render(&out);
    assert!(rendered.ends_with("Kernel: unknown · 8 threads"));
    assert!(rendered.contains("GPU: AMD Lucienne (iGPU) — driver: none ✗"));
}
