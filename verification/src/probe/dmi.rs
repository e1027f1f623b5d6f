//! Board and BIOS data: read from /sys/class/dmi/id (no privilege needed),
//! falling back to `dmidecode` (root only).

use vstd::prelude::*;

use crate::model::{Dmi, DmiView};
use crate::shell::ShellError;
use crate::text::{append_str, chars_of, string_of, trim, trim_chars};

verus! {

/// The sysfs directory of the DMI entries.
pub const SYSFS_DIR: &'static str = "/sys/class/dmi/id";

/// The `dmidecode` query whose failure tells that it cannot run (it fails
/// without root before printing anything).
pub const CHECK_COMMAND: &'static str = "LC_ALL=C dmidecode -s bios-version";

/// The contents of the sysfs DMI entries; `None` for an entry that could not
/// be read.
#[derive(Debug, Clone, PartialEq)]
pub struct SysfsDmi {
    pub board_vendor: Option<String>,
    pub sys_vendor: Option<String>,
    pub board_name: Option<String>,
    pub product_name: Option<String>,
    pub bios_version: Option<String>,
}

/// An entry's trimmed contents; `None` when unreadable or blank.
pub open spec fn entry_of(contents: Option<Seq<char>>) -> Option<Seq<char>> {
    match contents {
        Some(t) => if trim(t).len() > 0 {
            Some(trim(t))
        } else {
            None
        },
        None => None,
    }
}

pub open spec fn either(a: Option<Seq<char>>, b: Option<Seq<char>>) -> Option<Seq<char>> {
    match a {
        Some(v) => Some(v),
        None => b,
    }
}

/// The section that sysfs gives: board vendor (else system vendor), board
/// name (else product name) and BIOS version; `None` when all three are
/// missing.
pub open spec fn sysfs_dmi_of(s: SysfsDmi) -> Option<DmiView> {
    let board_vendor = either(
        entry_of(s.board_vendor.deep_view()),
        entry_of(s.sys_vendor.deep_view()),
    );
    let board_name = either(
        entry_of(s.board_name.deep_view()),
        entry_of(s.product_name.deep_view()),
    );
    let bios_version = entry_of(s.bios_version.deep_view());
    if board_vendor is Some || board_name is Some || bios_version is Some {
        Some(DmiView { available: true, board_vendor, board_name, bios_version })
    } else {
        None
    }
}

fn entry(contents: &Option<String>) -> (r: Option<String>)
    ensures
        r.deep_view() == entry_of(contents.deep_view()),
{
    match contents {
        Some(t) => {
            let c = chars_of(t.as_str());
            let c = trim_chars(&c);
            if c.len() > 0 {
                Some(string_of(&c))
            } else {
                None
            }
        },
        None => None,
    }
}

/// The section from the sysfs entries; `None` when none of them helps.
pub fn probe_sysfs(s: &SysfsDmi) -> (r: Option<Dmi>)
    ensures
        r.deep_view() == sysfs_dmi_of(*s),
{
    let board_vendor = match entry(&s.board_vendor) {
        Some(v) => Some(v),
        None => entry(&s.sys_vendor),
    };
    let board_name = match entry(&s.board_name) {
        Some(v) => Some(v),
        None => entry(&s.product_name),
    };
    let bios_version = entry(&s.bios_version);
    if board_vendor.is_some() || board_name.is_some() || bios_version.is_some() {
        Some(Dmi { available: true, board_vendor, board_name, bios_version })
    } else {
        None
    }
}

/// The section from sysfs when it helps, else what `dmidecode_fallback`
/// gives; the fallback runs only in the second case.
pub fn probe_from_paths<F>(sysfs: &SysfsDmi, dmidecode_fallback: F) -> (r: Dmi) where
    F: FnOnce() -> Dmi,

    requires
        dmidecode_fallback.requires(()),
    ensures
        match sysfs_dmi_of(*sysfs) {
            Some(d) => r.deep_view() == d,
            None => dmidecode_fallback.ensures((), r),
        },
{
    match probe_sysfs(sysfs) {
        Some(dmi) => dmi,
        None => dmidecode_fallback(),
    }
}

/// The section with nothing known.
pub fn unavailable() -> (r: Dmi)
    ensures
        !r.available,
        r.board_vendor is None,
        r.board_name is None,
        r.bios_version is None,
{
    Dmi { available: false, board_vendor: None, board_name: None, bios_version: None }
}

/// The `dmidecode -s <keyword>` command.
pub fn scalar_command(keyword: &str) -> (r: String)
    ensures
        r@ == "LC_ALL=C dmidecode -s "@ + keyword@,
{
    let mut out: Vec<char> = Vec::new();
    append_str(&mut out, "LC_ALL=C dmidecode -s ");
    append_str(&mut out, keyword);
    string_of(&out)
}

/// What one `dmidecode -s` query gives: its trimmed output, `None` when it
/// failed or printed only whitespace.
pub open spec fn scalar_of(output: Result<String, ShellError>) -> Option<Seq<char>> {
    match output {
        Ok(t) => if trim(t@).len() > 0 {
            Some(trim(t@))
        } else {
            None
        },
        Err(_) => None,
    }
}

/// The value of one `dmidecode -s` query.
pub fn scalar(output: Result<String, ShellError>) -> (r: Option<String>)
    ensures
        r.deep_view() == scalar_of(output),
{
    match output {
        Ok(t) => {
            let c = chars_of(t.as_str());
            let c = trim_chars(&c);
            if c.len() > 0 {
                Some(string_of(&c))
            } else {
                None
            }
        },
        Err(_) => None,
    }
}

/// The outputs of the three `dmidecode -s` queries, for
/// `baseboard-manufacturer`, `baseboard-product-name` and `bios-version`.
#[derive(Debug)]
pub struct DmidecodeOutputs {
    pub baseboard_manufacturer: Result<String, ShellError>,
    pub baseboard_product_name: Result<String, ShellError>,
    pub bios_version: Result<String, ShellError>,
}

/// The section from `dmidecode`: unavailable when `outputs` is `None` (the
/// tool is not installed or `CHECK_COMMAND` failed), else filled from the
/// three queries.
pub fn probe_dmidecode(outputs: Option<DmidecodeOutputs>) -> (r: Dmi)
    ensures
        match outputs {
            None => !r.available && r.board_vendor is None && r.board_name is None
                && r.bios_version is None,
            Some(o) => r.deep_view() == (DmiView {
                available: true,
                board_vendor: scalar_of(o.baseboard_manufacturer),
                board_name: scalar_of(o.baseboard_product_name),
                bios_version: scalar_of(o.bios_version),
            }),
        },
{
    match outputs {
        None => unavailable(),
        Some(o) => Dmi {
            available: true,
            board_vendor: scalar(o.baseboard_manufacturer),
            board_name: scalar(o.baseboard_product_name),
            bios_version: scalar(o.bios_version),
        },
    }
}

} // verus!
