//! The human-readable summary (`--summary`):
//! ```text
//! GPU: AMD Lucienne (iGPU) — driver: amdgpu ✓
//! WiFi: Realtek RTL8821CE — driver: rtw_8821ce ✓
//! Kernel: 6.12.107+deb13-amd64 · x86_64 · 4 cores / 8 threads · NVMe KIOXIA 256G + zram 4G
//! ```
//! Summary strings inform; exact values live in the JSON output.

use vstd::prelude::*;

use crate::model::{Output, OutputView, PciDevice, PciDeviceView, StorageDevice, StorageDeviceView};
use crate::number::{decimal, is_digit, push_decimal};
use crate::text::{
    append_chars, append_str, chars_of, contains, contains_exec, copy_range, eq_str, find_exec,
    first_some, join, join_exec, lemma_chars_deep, lemma_deep_view_push, lemma_first_some_skip, split_once,
    split_once_exec, starts_with_exec, string_of, strip_prefix, strip_prefix_exec, trim,
    trim_chars, words, words_of,
};

verus! {

// ------------------------------------------------------------------- names

/// Short vendor label for display.
pub open spec fn vendor_short_of(vendor: Seq<char>) -> Seq<char> {
    if contains(vendor, "[AMD"@) {
        "AMD"@
    } else if "Intel"@.is_prefix_of(vendor) {
        "Intel"@
    } else if contains(vendor, "Realtek"@) {
        "Realtek"@
    } else if contains(vendor, "Qualcomm"@) {
        "Qualcomm"@
    } else if contains(vendor, "NVIDIA"@) {
        "NVIDIA"@
    } else {
        let w = words(vendor);
        if w.len() > 0 {
            w[0]
        } else {
            vendor
        }
    }
}

/// Short vendor label for display.
pub fn vendor_short(vendor: &str) -> (r: String)
    ensures
        r@ == vendor_short_of(vendor@),
{
    let v = chars_of(vendor);
    let intel = chars_of("Intel");
    if contains_exec(&v, "[AMD") {
        "AMD".to_owned()
    } else if starts_with_exec(&v, &intel) {
        "Intel".to_owned()
    } else if contains_exec(&v, "Realtek") {
        "Realtek".to_owned()
    } else if contains_exec(&v, "Qualcomm") {
        "Qualcomm".to_owned()
    } else if contains_exec(&v, "NVIDIA") {
        "NVIDIA".to_owned()
    } else {
        let w = words_of(&v);
        if w.len() > 0 {
            proof {
                lemma_chars_deep(w@[0]);
            }
            string_of(&w[0])
        } else {
            vendor.to_owned()
        }
    }
}

/// The text before the first ` (` of `s`.
pub open spec fn before_paren(s: Seq<char>) -> Seq<char> {
    match split_once(s, " ("@) {
        Some((head, _)) => head,
        None => s,
    }
}

/// Compact device name: the vendor prefix dropped, then the first word
/// before any ` (`.
pub open spec fn device_short_of(vendor: Seq<char>, device: Seq<char>) -> Seq<char> {
    let stripped = match strip_prefix(device, vendor) {
        Some(rest) => trim(rest),
        None => device,
    };
    let w = words(before_paren(stripped));
    if w.len() > 0 {
        w[0]
    } else {
        stripped
    }
}

/// Compact device name: drop the vendor prefix, keep the first model word.
pub fn device_short(vendor: &str, device: &str) -> (r: String)
    ensures
        r@ == device_short_of(vendor@, device@),
{
    let v = chars_of(vendor);
    let d = chars_of(device);
    let stripped = match strip_prefix_exec(&d, &v) {
        Some(rest) => {
            proof {
                lemma_chars_deep(rest);
            }
            trim_chars(&rest)
        },
        None => d,
    };
    let paren = chars_of(" (");
    let head = match split_once_exec(&stripped, &paren) {
        Some((head, _)) => head,
        None => copy_range(&stripped, 0, stripped.len()),
    };
    assert(head@ =~= before_paren(stripped@));
    let w = words_of(&head);
    if w.len() > 0 {
        proof {
            lemma_chars_deep(w@[0]);
        }
        string_of(&w[0])
    } else {
        string_of(&stripped)
    }
}

/// A GPU whose vendor is also the CPU's vendor is taken for integrated
/// graphics.
pub open spec fn is_igpu_of(gpu_vendor: Seq<char>, cpu_vendor: Option<Seq<char>>) -> bool {
    let g = vendor_short_of(gpu_vendor);
    let c = match cpu_vendor {
        Some(v) => v,
        None => Seq::empty(),
    };
    (g == "AMD"@ && c == "AMD"@) || (g == "Intel"@ && c == "Intel"@)
}

fn is_igpu(gpu_vendor: &str, out: &Output) -> (b: bool)
    ensures
        b == is_igpu_of(gpu_vendor@, out.deep_view().cpu.vendor),
{
    let gpu = vendor_short(gpu_vendor);
    let g = chars_of(gpu.as_str());
    let c = match &out.cpu.vendor {
        Some(v) => chars_of(v.as_str()),
        None => Vec::new(),
    };
    assert(c@ =~= match out.deep_view().cpu.vendor {
        Some(v) => v,
        None => Seq::empty(),
    });
    (eq_str(&g, "AMD") && eq_str(&c, "AMD")) || (eq_str(&g, "Intel") && eq_str(&c, "Intel"))
}

// ------------------------------------------------------------------ devices

pub open spec fn is_gpu(d: PciDeviceView) -> bool {
    d.category == "gpu"@
}

pub open spec fn gpus_of(devs: Seq<PciDeviceView>) -> Seq<PciDeviceView> {
    devs.filter(|d: PciDeviceView| is_gpu(d))
}

/// One device line: `GPU: AMD Lucienne (iGPU) — driver: amdgpu ✓`, or
/// `WiFi: not detected`.
pub open spec fn device_line_of(
    label: Seq<char>,
    dev: Option<PciDeviceView>,
    allow_igpu: bool,
    out: OutputView,
) -> Seq<char> {
    match dev {
        None => label + ": not detected"@,
        Some(d) => {
            let igpu = if allow_igpu && is_igpu_of(d.vendor, out.cpu.vendor) {
                " (iGPU)"@
            } else if allow_igpu && gpus_of(out.pci_devices).len() > 1 {
                " (dGPU)"@
            } else {
                Seq::empty()
            };
            let driver = match d.driver_in_use {
                Some(name) => "driver: "@ + name + " ✓"@,
                None => "driver: none ✗"@,
            };
            label + ": "@ + vendor_short_of(d.vendor) + " "@ + device_short_of(d.vendor, d.device)
                + igpu + " — "@ + driver
        },
    }
}

fn gpu_count(out: &Output) -> (r: usize)
    ensures
        r == gpus_of(out.deep_view().pci_devices).len(),
{
    let ghost devs = out.deep_view().pci_devices;
    let ghost p = |d: PciDeviceView| is_gpu(d);
    let mut n: usize = 0;
    let mut i: usize = 0;
    proof {
        reveal(Seq::filter);
    }
    assert(devs.take(0).filter(p) =~= Seq::<PciDeviceView>::empty());
    while i < out.pci_devices.len()
        invariant
            i <= out.pci_devices@.len(),
            devs == out.deep_view().pci_devices,
            p == (|d: PciDeviceView| is_gpu(d)),
            n == devs.take(i as int).filter(p).len(),
            n <= i,
        decreases out.pci_devices@.len() - i,
    {
        proof {
            devs.take(i as int).lemma_filter_push(devs[i as int], p);
            assert(devs.take(i as int + 1) =~= devs.take(i as int).push(devs[i as int]));
        }
        if eq_str(&chars_of(out.pci_devices[i].category.as_str()), "gpu") {
            n += 1;
        }
        i += 1;
    }
    assert(devs.take(i as int) =~= devs);
    n
}

/// One device line of the summary.
fn device_line(label: &str, dev: Option<&PciDevice>, allow_igpu: bool, out: &Output) -> (r: Vec<
    char,
>)
    ensures
        r@ == device_line_of(
            label@,
            match dev {
                Some(d) => Some(d.deep_view()),
                None => None,
            },
            allow_igpu,
            out.deep_view(),
        ),
{
    let mut line: Vec<char> = Vec::new();
    append_str(&mut line, label);
    match dev {
        None => {
            append_str(&mut line, ": not detected");
        },
        Some(d) => {
            let vendor = vendor_short(d.vendor.as_str());
            let name = device_short(d.vendor.as_str(), d.device.as_str());
            append_str(&mut line, ": ");
            append_str(&mut line, vendor.as_str());
            append_str(&mut line, " ");
            append_str(&mut line, name.as_str());
            if allow_igpu && is_igpu(d.vendor.as_str(), out) {
                append_str(&mut line, " (iGPU)");
            } else if allow_igpu && gpu_count(out) > 1 {
                append_str(&mut line, " (dGPU)");
            }
            append_str(&mut line, " — ");
            match &d.driver_in_use {
                Some(driver) => {
                    append_str(&mut line, "driver: ");
                    append_str(&mut line, driver.as_str());
                    append_str(&mut line, " ✓");
                },
                None => {
                    append_str(&mut line, "driver: none ✗");
                },
            }
        },
    }
    proof {
        let expected = device_line_of(
            label@,
            match dev {
                Some(d) => Some(d.deep_view()),
                None => None,
            },
            allow_igpu,
            out.deep_view(),
        );
        assert(line@ =~= expected);
    }
    line
}


// -------------------------------------------------------------------- sizes

pub open spec fn rounded_div(b: nat, unit: nat) -> nat {
    ((b + unit / 2) / unit) as nat
}

/// Size with decimal units for display (the JSON carries exact bytes):
/// whole terabytes below, gigabytes, megabytes and kilobytes rounded half
/// up, bytes as they are. `256060514304` is `256G`, `4294967296` is `4G`.
pub open spec fn human_size_of(bytes: u64) -> Seq<char> {
    if bytes >= 1_000_000_000_000 {
        decimal((bytes / 1_000_000_000_000) as nat) + "T"@
    } else if bytes >= 1_000_000_000 {
        decimal(rounded_div(bytes as nat, 1_000_000_000)) + "G"@
    } else if bytes >= 1_000_000 {
        decimal(rounded_div(bytes as nat, 1_000_000)) + "M"@
    } else if bytes >= 1_000 {
        decimal(rounded_div(bytes as nat, 1_000)) + "K"@
    } else {
        decimal(bytes as nat) + "B"@
    }
}

pub const TB: u64 = 1_000_000_000_000;

pub const GB: u64 = 1_000_000_000;

pub const MB: u64 = 1_000_000;

pub const KB: u64 = 1_000;

fn push_human_size(out: &mut Vec<char>, bytes: u64)
    ensures
        final(out)@ == old(out)@ + human_size_of(bytes),
{
    if bytes >= TB {
        push_decimal(out, bytes / TB);
        out.push('T');
    } else if bytes >= GB {
        push_decimal(out, (bytes + GB / 2) / GB);
        out.push('G');
    } else if bytes >= MB {
        push_decimal(out, (bytes + MB / 2) / MB);
        out.push('M');
    } else if bytes >= KB {
        push_decimal(out, (bytes + KB / 2) / KB);
        out.push('K');
    } else {
        push_decimal(out, bytes);
        out.push('B');
    }
    proof {
        reveal_strlit("T");
        reveal_strlit("G");
        reveal_strlit("M");
        reveal_strlit("K");
        reveal_strlit("B");
    }
    assert(out@ =~= old(out)@ + human_size_of(bytes));
}

/// Size with decimal units for display: `256060514304` is `256G`.
pub fn human_size(bytes: u64) -> (r: String)
    ensures
        r@ == human_size_of(bytes),
{
    let mut out: Vec<char> = Vec::new();
    push_human_size(&mut out, bytes);
    assert(out@ =~= human_size_of(bytes));
    string_of(&out)
}

// ------------------------------------------------------------------ storage

pub open spec fn has_digit(t: Seq<char>) -> bool {
    exists|i: int| 0 <= i < t.len() && is_digit(t[i])
}

/// The model without the words that hold a digit; the model itself when
/// every word does; `None` when there is no model or it is empty.
pub open spec fn model_short_of(model: Option<Seq<char>>) -> Option<Seq<char>> {
    match model {
        None => None,
        Some(m) => {
            let cleaned = words(m).filter(|t: Seq<char>| !has_digit(t));
            let chosen = if cleaned.len() == 0 {
                m
            } else {
                join(cleaned, " "@)
            };
            if chosen.len() > 0 {
                Some(chosen)
            } else {
                None
            }
        },
    }
}

fn has_digit_exec(t: &Vec<char>) -> (b: bool)
    ensures
        b == has_digit(t@),
{
    let mut i: usize = 0;
    while i < t.len()
        invariant
            i <= t@.len(),
            forall|j: int| 0 <= j < i ==> !is_digit(#[trigger] t@[j]),
        decreases t@.len() - i,
    {
        if t[i] >= '0' && t[i] <= '9' {
            return true;
        }
        i += 1;
    }
    false
}

/// Model without alphanumeric noise (words holding digits), falling back to
/// the raw model.
pub fn model_short(storage: &StorageDevice) -> (r: Option<String>)
    ensures
        r.deep_view() == model_short_of(storage.model.deep_view()),
{
    let model = match &storage.model {
        None => {
            return None;
        },
        Some(m) => chars_of(m.as_str()),
    };
    let w = words_of(&model);
    let ghost wv = words(model@);
    let ghost p = |t: Seq<char>| !has_digit(t);
    let mut cleaned: Vec<Vec<char>> = Vec::new();
    let mut i: usize = 0;
    proof {
        reveal(Seq::filter);
    }
    assert(cleaned.deep_view() =~= wv.take(0).filter(p));
    while i < w.len()
        invariant
            i <= w@.len(),
            w.deep_view() == wv,
            p == (|t: Seq<char>| !has_digit(t)),
            cleaned.deep_view() == wv.take(i as int).filter(p),
        decreases w@.len() - i,
    {
        proof {
            lemma_chars_deep(w@[i as int]);
            wv.take(i as int).lemma_filter_push(wv[i as int], p);
            assert(wv.take(i as int + 1) =~= wv.take(i as int).push(wv[i as int]));
        }
        if !has_digit_exec(&w[i]) {
            let word = copy_range(&w[i], 0, w[i].len());
            assert(word@ =~= w@[i as int]@);
            let ghost before = cleaned;
            cleaned.push(word);
            proof {
                lemma_deep_view_push(before, word, cleaned);
                lemma_chars_deep(word);
            }
        }
        i += 1;
    }
    assert(wv.take(i as int) =~= wv);
    let chosen = if cleaned.len() == 0 {
        model
    } else {
        let space = chars_of(" ");
        join_exec(&cleaned, &space)
    };
    if chosen.len() > 0 {
        Some(string_of(&chosen))
    } else {
        None
    }
}

pub open spec fn is_primary_transport(s: StorageDeviceView) -> bool {
    s.transport == Some("nvme"@) || s.transport == Some("sata"@)
}

/// The disk the summary shows: the first NVMe or SATA one, else the first
/// disk.
pub open spec fn primary_of(storage: Seq<StorageDeviceView>) -> Option<StorageDeviceView> {
    match first_some(
        storage,
        |s: StorageDeviceView|
            if is_primary_transport(s) {
                Some(s)
            } else {
                None
            },
    ) {
        Some(s) => Some(s),
        None => first_some(
            storage,
            |s: StorageDeviceView|
                if s.device_type == "disk"@ {
                    Some(s)
                } else {
                    None
                },
        ),
    }
}

pub open spec fn transport_label(t: Option<Seq<char>>) -> Seq<char> {
    match t {
        Some(x) => if x == "nvme"@ {
            "NVMe"@
        } else if x == "sata"@ {
            "SATA"@
        } else if x == "usb"@ {
            "USB"@
        } else {
            x
        },
        None => Seq::empty(),
    }
}

/// Transport, short model and size of one disk, trimmed.
pub open spec fn disk_segment_of(s: StorageDeviceView) -> Seq<char> {
    trim(transport_label(s.transport) + match model_short_of(s.model) {
        Some(m) => " "@ + m,
        None => Seq::empty(),
    } + match s.size_bytes {
        Some(b) => " "@ + human_size_of(b),
        None => Seq::empty(),
    })
}

/// The zram size: the memory section's, else the size of the first storage
/// device named `zram...`.
pub open spec fn zram_bytes_of(out: OutputView) -> Option<u64> {
    match out.memory.zram_total_bytes {
        Some(z) => Some(z),
        None => match first_some(
            out.storage,
            |s: StorageDeviceView|
                if "zram"@.is_prefix_of(s.name) {
                    Some(s)
                } else {
                    None
                },
        ) {
            Some(s) => s.size_bytes,
            None => None,
        },
    }
}

/// Primary disk plus zram suffix, e.g. `NVMe KIOXIA 256G + zram 4G`.
pub open spec fn storage_segment_of(out: OutputView) -> Seq<char> {
    let segment = match primary_of(out.storage) {
        Some(s) => disk_segment_of(s),
        None => Seq::empty(),
    };
    match zram_bytes_of(out) {
        Some(z) => (if segment.len() > 0 {
            segment + " + "@
        } else {
            segment
        }) + "zram "@ + human_size_of(z),
        None => segment,
    }
}


fn is_primary_exec(s: &StorageDevice) -> (b: bool)
    ensures
        b == is_primary_transport(s.deep_view()),
{
    match &s.transport {
        Some(t) => {
            let v = chars_of(t.as_str());
            eq_str(&v, "nvme") || eq_str(&v, "sata")
        },
        None => false,
    }
}

fn first_primary(storage: &Vec<StorageDevice>) -> (r: Option<&StorageDevice>)
    ensures
        match r {
            Some(s) => first_some(
                storage.deep_view(),
                |s: StorageDeviceView|
                    if is_primary_transport(s) {
                        Some(s)
                    } else {
                        None
                    },
            ) == Some(s.deep_view()),
            None => first_some(
                storage.deep_view(),
                |s: StorageDeviceView|
                    if is_primary_transport(s) {
                        Some(s)
                    } else {
                        None
                    },
            ) is None,
        },
{
    let ghost sv = storage.deep_view();
    let ghost f = |s: StorageDeviceView|
        if is_primary_transport(s) {
            Some(s)
        } else {
            None
        };
    let mut i: usize = 0;
    assert(sv.skip(0) =~= sv);
    while i < storage.len()
        invariant
            i <= storage@.len(),
            sv == storage.deep_view(),
            f == (|s: StorageDeviceView|
                if is_primary_transport(s) {
                    Some(s)
                } else {
                    None
                }),
            first_some(sv, f) == first_some(sv.skip(i as int), f),
        decreases storage@.len() - i,
    {
        proof {
            lemma_first_some_skip(sv, f, i as int);
        }
        if is_primary_exec(&storage[i]) {
            return Some(&storage[i]);
        }
        i += 1;
    }
    assert(sv.skip(i as int) =~= Seq::<StorageDeviceView>::empty());
    None
}

fn first_disk(storage: &Vec<StorageDevice>) -> (r: Option<&StorageDevice>)
    ensures
        match r {
            Some(s) => first_some(
                storage.deep_view(),
                |s: StorageDeviceView|
                    if s.device_type == "disk"@ {
                        Some(s)
                    } else {
                        None
                    },
            ) == Some(s.deep_view()),
            None => first_some(
                storage.deep_view(),
                |s: StorageDeviceView|
                    if s.device_type == "disk"@ {
                        Some(s)
                    } else {
                        None
                    },
            ) is None,
        },
{
    let ghost sv = storage.deep_view();
    let ghost f = |s: StorageDeviceView|
        if s.device_type == "disk"@ {
            Some(s)
        } else {
            None
        };
    let mut i: usize = 0;
    assert(sv.skip(0) =~= sv);
    while i < storage.len()
        invariant
            i <= storage@.len(),
            sv == storage.deep_view(),
            f == (|s: StorageDeviceView|
                if s.device_type == "disk"@ {
                    Some(s)
                } else {
                    None
                }),
            first_some(sv, f) == first_some(sv.skip(i as int), f),
        decreases storage@.len() - i,
    {
        proof {
            lemma_first_some_skip(sv, f, i as int);
        }
        if eq_str(&chars_of(storage[i].device_type.as_str()), "disk") {
            return Some(&storage[i]);
        }
        i += 1;
    }
    assert(sv.skip(i as int) =~= Seq::<StorageDeviceView>::empty());
    None
}

fn first_zram(storage: &Vec<StorageDevice>) -> (r: Option<&StorageDevice>)
    ensures
        match r {
            Some(s) => first_some(
                storage.deep_view(),
                |s: StorageDeviceView|
                    if "zram"@.is_prefix_of(s.name) {
                        Some(s)
                    } else {
                        None
                    },
            ) == Some(s.deep_view()),
            None => first_some(
                storage.deep_view(),
                |s: StorageDeviceView|
                    if "zram"@.is_prefix_of(s.name) {
                        Some(s)
                    } else {
                        None
                    },
            ) is None,
        },
{
    let ghost sv = storage.deep_view();
    let ghost f = |s: StorageDeviceView|
        if "zram"@.is_prefix_of(s.name) {
            Some(s)
        } else {
            None
        };
    let zram = chars_of("zram");
    let mut i: usize = 0;
    assert(sv.skip(0) =~= sv);
    while i < storage.len()
        invariant
            i <= storage@.len(),
            sv == storage.deep_view(),
            zram@ == "zram"@,
            f == (|s: StorageDeviceView|
                if "zram"@.is_prefix_of(s.name) {
                    Some(s)
                } else {
                    None
                }),
            first_some(sv, f) == first_some(sv.skip(i as int), f),
        decreases storage@.len() - i,
    {
        proof {
            lemma_first_some_skip(sv, f, i as int);
        }
        if starts_with_exec(&chars_of(storage[i].name.as_str()), &zram) {
            return Some(&storage[i]);
        }
        i += 1;
    }
    assert(sv.skip(i as int) =~= Seq::<StorageDeviceView>::empty());
    None
}

fn zram_bytes(out: &Output) -> (r: Option<u64>)
    ensures
        r == zram_bytes_of(out.deep_view()),
{
    match out.memory.zram_total_bytes {
        Some(z) => Some(z),
        None => match first_zram(&out.storage) {
            Some(s) => s.size_bytes,
            None => None,
        },
    }
}

fn disk_segment(s: &StorageDevice) -> (r: Vec<char>)
    ensures
        r@ == disk_segment_of(s.deep_view()),
{
    let mut seg: Vec<char> = Vec::new();
    match &s.transport {
        Some(t) => {
            let v = chars_of(t.as_str());
            if eq_str(&v, "nvme") {
                append_str(&mut seg, "NVMe");
            } else if eq_str(&v, "sata") {
                append_str(&mut seg, "SATA");
            } else if eq_str(&v, "usb") {
                append_str(&mut seg, "USB");
            } else {
                append_chars(&mut seg, &v);
            }
        },
        None => {},
    }
    match model_short(s) {
        Some(m) => {
            append_str(&mut seg, " ");
            append_str(&mut seg, m.as_str());
        },
        None => {},
    }
    match s.size_bytes {
        Some(b) => {
            append_str(&mut seg, " ");
            push_human_size(&mut seg, b);
        },
        None => {},
    }
    let r = trim_chars(&seg);
    proof {
        let raw = transport_label(s.deep_view().transport) + match model_short_of(
            s.deep_view().model,
        ) {
            Some(m) => " "@ + m,
            None => Seq::empty(),
        } + match s.deep_view().size_bytes {
            Some(b) => " "@ + human_size_of(b),
            None => Seq::empty(),
        };
        assert(seg@ =~= raw);
    }
    r
}

/// Primary disk plus zram suffix, e.g. `NVMe KIOXIA 256G + zram 4G`.
fn storage_segment(out: &Output) -> (r: Vec<char>)
    ensures
        r@ == storage_segment_of(out.deep_view()),
{
    let primary = match first_primary(&out.storage) {
        Some(s) => Some(s),
        None => first_disk(&out.storage),
    };
    let mut segment = match primary {
        Some(s) => disk_segment(s),
        None => Vec::new(),
    };
    let ghost seg0 = segment@;
    assert(seg0 =~= match primary_of(out.deep_view().storage) {
        Some(s) => disk_segment_of(s),
        None => Seq::empty(),
    });
    match zram_bytes(out) {
        Some(z) => {
            if segment.len() > 0 {
                append_str(&mut segment, " + ");
            }
            append_str(&mut segment, "zram ");
            push_human_size(&mut segment, z);
        },
        None => {},
    }
    assert(segment@ =~= storage_segment_of(out.deep_view()));
    segment
}

// ------------------------------------------------------------------- kernel

/// `Kernel: <release> · <arch> · <cores> cores / <threads> threads · <disks>`,
/// leaving out what is unknown (the release reads `unknown`).
pub open spec fn kernel_line_of(out: OutputView) -> Seq<char> {
    let p0: Seq<Seq<char>> = seq![
        match out.os.kernel {
            Some(k) => k,
            None => "unknown"@,
        },
    ];
    let p1 = match out.os.arch {
        Some(a) => p0.push(a),
        None => p0,
    };
    let p2 = match (out.cpu.cores, out.cpu.threads) {
        (Some(c), Some(t)) => p1.push(
            decimal(c as nat) + " cores / "@ + decimal(t as nat) + " threads"@,
        ),
        (Some(c), None) => p1.push(decimal(c as nat) + " cores"@),
        (None, Some(t)) => p1.push(decimal(t as nat) + " threads"@),
        (None, None) => p1,
    };
    let seg = storage_segment_of(out);
    let p3 = if seg.len() > 0 {
        p2.push(seg)
    } else {
        p2
    };
    "Kernel: "@ + join(p3, " · "@)
}

fn push_part(parts: &mut Vec<Vec<char>>, part: Vec<char>)
    ensures
        final(parts).deep_view() == old(parts).deep_view().push(part@),
{
    let ghost before = *parts;
    parts.push(part);
    proof {
        lemma_deep_view_push(before, part, *parts);
        lemma_chars_deep(part);
    }
}

fn kernel_line(out: &Output) -> (r: Vec<char>)
    ensures
        r@ == kernel_line_of(out.deep_view()),
{
    let mut parts: Vec<Vec<char>> = Vec::new();
    let first = match &out.os.kernel {
        Some(k) => chars_of(k.as_str()),
        None => chars_of("unknown"),
    };
    proof {
        crate::text::lemma_deep_view_empty(parts);
    }
    push_part(&mut parts, first);
    match &out.os.arch {
        Some(a) => {
            push_part(&mut parts, chars_of(a.as_str()));
        },
        None => {},
    }
    match (out.cpu.cores, out.cpu.threads) {
        (Some(c), Some(t)) => {
            let mut p: Vec<char> = Vec::new();
            push_decimal(&mut p, c as u64);
            append_str(&mut p, " cores / ");
            push_decimal(&mut p, t as u64);
            append_str(&mut p, " threads");
            push_part(&mut parts, p);
        },
        (Some(c), None) => {
            let mut p: Vec<char> = Vec::new();
            push_decimal(&mut p, c as u64);
            append_str(&mut p, " cores");
            push_part(&mut parts, p);
        },
        (None, Some(t)) => {
            let mut p: Vec<char> = Vec::new();
            push_decimal(&mut p, t as u64);
            append_str(&mut p, " threads");
            push_part(&mut parts, p);
        },
        (None, None) => {},
    }
    let seg = storage_segment(out);
    if seg.len() > 0 {
        push_part(&mut parts, seg);
    }
    let mut line = chars_of("Kernel: ");
    let sep = chars_of(" · ");
    let joined = join_exec(&parts, &sep);
    append_chars(&mut line, &joined);
    proof {
        let ov = out.deep_view();
        let p0: Seq<Seq<char>> = seq![
            match ov.os.kernel {
                Some(k) => k,
                None => "unknown"@,
            },
        ];
        let p1 = match ov.os.arch {
            Some(a) => p0.push(a),
            None => p0,
        };
        let p2 = match (ov.cpu.cores, ov.cpu.threads) {
            (Some(c), Some(t)) => p1.push(
                decimal(c as nat) + " cores / "@ + decimal(t as nat) + " threads"@,
            ),
            (Some(c), None) => p1.push(decimal(c as nat) + " cores"@),
            (None, Some(t)) => p1.push(decimal(t as nat) + " threads"@),
            (None, None) => p1,
        };
        let p3 = if seg@.len() > 0 {
            p2.push(seg@)
        } else {
            p2
        };
        assert(parts.deep_view() =~= p3);
    }
    line
}

// ------------------------------------------------------------------- render

pub open spec fn first_wireless(devs: Seq<PciDeviceView>) -> Option<PciDeviceView> {
    first_some(
        devs,
        |d: PciDeviceView|
            if d.category == "wireless"@ {
                Some(d)
            } else {
                None
            },
    )
}

/// The summary lines: one `GPU:` line per GPU (or `GPU: not detected`),
/// the `WiFi:` line of the first wireless device, and the kernel line.
pub open spec fn summary_lines(out: OutputView) -> Seq<Seq<char>> {
    let gpus = gpus_of(out.pci_devices);
    let gpu_lines = if gpus.len() == 0 {
        seq![device_line_of("GPU"@, None, true, out)]
    } else {
        gpus.map_values(|g: PciDeviceView| device_line_of("GPU"@, Some(g), true, out))
    };
    gpu_lines.push(device_line_of("WiFi"@, first_wireless(out.pci_devices), false, out)).push(
        kernel_line_of(out),
    )
}

/// What a device line reports of the driver.
pub open spec fn driver_note(d: PciDeviceView) -> Seq<char> {
    match d.driver_in_use {
        Some(name) => "driver: "@ + name + " ✓"@,
        None => "driver: none ✗"@,
    }
}

proof fn lemma_device_line(label: Seq<char>, dev: Option<PciDeviceView>, allow_igpu: bool, out: OutputView)
    ensures
        (label + ": "@).is_prefix_of(device_line_of(label, dev, allow_igpu, out)),
        dev matches Some(d) ==> driver_note(d).is_suffix_of(
            device_line_of(label, dev, allow_igpu, out),
        ),
{
    let line = device_line_of(label, dev, allow_igpu, out);
    let head = label + ": "@;
    match dev {
        None => {
            reveal_strlit(": not detected");
            reveal_strlit(": ");
            assert(line.subrange(0, head.len() as int) =~= head);
        },
        Some(d) => {
            let rest = vendor_short_of(d.vendor) + " "@ + device_short_of(d.vendor, d.device) + (
            if allow_igpu && is_igpu_of(d.vendor, out.cpu.vendor) {
                " (iGPU)"@
            } else if allow_igpu && gpus_of(out.pci_devices).len() > 1 {
                " (dGPU)"@
            } else {
                Seq::empty()
            }) + " — "@;
            assert(line =~= head + rest + driver_note(d));
            assert(line.subrange(0, head.len() as int) =~= head);
            assert(line.subrange(line.len() - driver_note(d).len(), line.len() as int) =~= driver_note(d));
        },
    }
}

/// Law: a GPU made by the CPU's maker, AMD or Intel, is tagged as
/// integrated graphics in its summary line, and only a GPU whose short
/// vendor is the CPU's vendor is taken for one.
pub proof fn lemma_igpu_tag(d: PciDeviceView, out: OutputView)
    ensures
        (vendor_short_of(d.vendor) == "AMD"@ || vendor_short_of(d.vendor) == "Intel"@)
            && out.cpu.vendor == Some(vendor_short_of(d.vendor)) ==> device_line_of(
            "GPU"@,
            Some(d),
            true,
            out,
        ) == "GPU: "@ + vendor_short_of(d.vendor) + " "@ + device_short_of(d.vendor, d.device)
            + " (iGPU)"@ + " — "@ + driver_note(d),
        is_igpu_of(d.vendor, out.cpu.vendor) ==> out.cpu.vendor == Some(vendor_short_of(d.vendor)),
{
    reveal_strlit("GPU: ");
    reveal_strlit("GPU");
    reveal_strlit(": ");
    reveal_strlit("AMD");
    reveal_strlit("Intel");
    assert("GPU"@ + ": "@ =~= "GPU: "@);
    if is_igpu_of(d.vendor, out.cpu.vendor) {
        if out.cpu.vendor is None {
            assert(Seq::<char>::empty() != "AMD"@);
            assert(Seq::<char>::empty() != "Intel"@);
        }
    }
}

/// Law: the summary has one `GPU:` line per GPU (a single one when there is
/// none), in PCI order and each with its driver state, then one `WiFi:` line
/// and one `Kernel:` line.
pub proof fn lemma_summary_shape(out: OutputView)
    ensures
        ({
            let gpus = gpus_of(out.pci_devices);
            let lines = summary_lines(out);
            let g = if gpus.len() == 0 {
                1int
            } else {
                gpus.len() as int
            };
            &&& lines.len() == g + 2
            &&& forall|i: int| 0 <= i < g ==> ("GPU: "@).is_prefix_of(#[trigger] lines[i])
            &&& forall|i: int| 0 <= i < gpus.len() ==> driver_note(gpus[i]).is_suffix_of(
                #[trigger] lines[i],
            )
            &&& ("WiFi: "@).is_prefix_of(lines[g])
            &&& ("Kernel: "@).is_prefix_of(lines[g + 1])
        }),
{
    reveal_strlit("GPU: ");
    reveal_strlit("GPU");
    reveal_strlit("WiFi: ");
    reveal_strlit("WiFi");
    reveal_strlit("Kernel: ");
    reveal_strlit(": ");
    let gpus = gpus_of(out.pci_devices);
    let lines = summary_lines(out);
    assert("GPU"@ + ": "@ =~= "GPU: "@);
    assert("WiFi"@ + ": "@ =~= "WiFi: "@);
    if gpus.len() == 0 {
        lemma_device_line("GPU"@, None, true, out);
    } else {
        assert forall|i: int| 0 <= i < gpus.len() implies ("GPU: "@).is_prefix_of(
            #[trigger] lines[i],
        ) && driver_note(gpus[i]).is_suffix_of(lines[i]) by {
            lemma_device_line("GPU"@, Some(gpus[i]), true, out);
        }
    }
    lemma_device_line("WiFi"@, first_wireless(out.pci_devices), false, out);
    let k = kernel_line_of(out);
    let g = if gpus.len() == 0 {
        1int
    } else {
        gpus.len() as int
    };
    assert(lines[g + 1] == k);
    assert(k.subrange(0, 8) =~= "Kernel: "@);
}

/// The summary, its lines joined with newlines.
pub open spec fn render_of(out: OutputView) -> Seq<char> {
    join(summary_lines(out), "\n"@)
}

fn first_wifi(out: &Output) -> (r: Option<&PciDevice>)
    ensures
        match r {
            Some(d) => first_wireless(out.deep_view().pci_devices) == Some(d.deep_view()),
            None => first_wireless(out.deep_view().pci_devices) is None,
        },
{
    let ghost dv = out.deep_view().pci_devices;
    let ghost f = |d: PciDeviceView|
        if d.category == "wireless"@ {
            Some(d)
        } else {
            None
        };
    let mut i: usize = 0;
    assert(dv.skip(0) =~= dv);
    while i < out.pci_devices.len()
        invariant
            i <= out.pci_devices@.len(),
            dv == out.deep_view().pci_devices,
            f == (|d: PciDeviceView|
                if d.category == "wireless"@ {
                    Some(d)
                } else {
                    None
                }),
            first_some(dv, f) == first_some(dv.skip(i as int), f),
        decreases out.pci_devices@.len() - i,
    {
        proof {
            lemma_first_some_skip(dv, f, i as int);
        }
        if eq_str(&chars_of(out.pci_devices[i].category.as_str()), "wireless") {
            return Some(&out.pci_devices[i]);
        }
        i += 1;
    }
    assert(dv.skip(i as int) =~= Seq::<PciDeviceView>::empty());
    None
}

/// Render the human summary of a scan.
pub fn render(out: &Output) -> (r: String)
    ensures
        r@ == render_of(out.deep_view()),
{
    let ghost ov = out.deep_view();
    let ghost devs = ov.pci_devices;
    let ghost p = |d: PciDeviceView| is_gpu(d);
    let ghost g = |d: PciDeviceView| device_line_of("GPU"@, Some(d), true, ov);
    let mut lines: Vec<Vec<char>> = Vec::new();
    let mut i: usize = 0;
    proof {
        reveal(Seq::filter);
        crate::text::lemma_deep_view_empty(lines);
    }
    assert(devs.take(0).filter(p) =~= Seq::<PciDeviceView>::empty());
    assert(lines.deep_view() =~= devs.take(0).filter(p).map_values(g));
    while i < out.pci_devices.len()
        invariant
            i <= out.pci_devices@.len(),
            ov == out.deep_view(),
            devs == ov.pci_devices,
            p == (|d: PciDeviceView| is_gpu(d)),
            g == (|d: PciDeviceView| device_line_of("GPU"@, Some(d), true, ov)),
            lines.deep_view() == devs.take(i as int).filter(p).map_values(g),
        decreases out.pci_devices@.len() - i,
    {
        proof {
            devs.take(i as int).lemma_filter_push(devs[i as int], p);
            assert(devs.take(i as int + 1) =~= devs.take(i as int).push(devs[i as int]));
        }
        let d = &out.pci_devices[i];
        if eq_str(&chars_of(d.category.as_str()), "gpu") {
            let line = device_line("GPU", Some(d), true, out);
            let ghost before = devs.take(i as int).filter(p);
            push_part(&mut lines, line);
            assert(before.push(devs[i as int]).map_values(g) =~= before.map_values(g).push(
                g(devs[i as int]),
            ));
        }
        i += 1;
    }
    assert(devs.take(i as int) =~= devs);
    if lines.len() == 0 {
        let line = device_line("GPU", None, true, out);
        push_part(&mut lines, line);
    }
    let wifi = first_wifi(out);
    let wifi_line = device_line("WiFi", wifi, false, out);
    push_part(&mut lines, wifi_line);
    let kernel = kernel_line(out);
    push_part(&mut lines, kernel);
    assert(lines.deep_view() =~= summary_lines(ov));
    let nl = chars_of("\n");
    let joined = join_exec(&lines, &nl);
    string_of(&joined)
}

} // verus!
