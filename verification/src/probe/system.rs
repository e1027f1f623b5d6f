//! Core system facts: distro (/etc/os-release), kernel, arch and hostname
//! (`uname -snrmo`), CPU (`lscpu`), memory (/proc/meminfo) and zram swap
//! (/proc/swaps).

use vstd::prelude::*;

use crate::model::{Cpu, CpuView, Memory, Os, OsView, ProbeError};
use crate::number::{parse_u32, parse_u32_exec, parse_u64, parse_u64_exec};
use crate::probe::{probe_error_view, record_error};
use crate::shell::ShellError;
use crate::text::{
    chars_of, contains, contains_exec, eq_str, first_some, lemma_chars_deep, lemma_first_some_at,
    lemma_first_some_none, lemma_first_some_skip,
    lines, lines_of, split_once, split_once_exec, starts_with_exec, string_of, trim, trim_char,
    trim_char_exec, trim_chars, words, words_of,
};

verus! {

/// The command that tells kernel, arch and hostname.
pub const UNAME_COMMAND: &'static str = "uname -snrmo";

/// The command that describes the CPU.
pub const LSCPU_COMMAND: &'static str = "LC_ALL=C lscpu";

/// The file that names the distro.
pub const OS_RELEASE_PATH: &'static str = "/etc/os-release";

/// The file of memory totals.
pub const MEMINFO_PATH: &'static str = "/proc/meminfo";

/// The file of swap devices.
pub const SWAPS_PATH: &'static str = "/proc/swaps";

// ---------------------------------------------------------------- os-release

/// The value of `key=value` on this line, trimmed and unquoted.
pub open spec fn assignment(line: Seq<char>, key: Seq<char>) -> Option<Seq<char>> {
    match split_once(line, "="@) {
        None => None,
        Some((k, v)) => if trim(k) == key {
            Some(trim_char(trim(v), '"'))
        } else {
            None
        },
    }
}

/// The value of the first line that assigns `key`.
pub open spec fn os_release_value(text: Seq<char>, key: Seq<char>) -> Option<Seq<char>> {
    first_some(lines(text), |l: Seq<char>| assignment(l, key))
}

/// `PRETTY_NAME`, falling back to `NAME`; `None` when empty.
pub open spec fn distro_of(text: Seq<char>) -> Option<Seq<char>> {
    let picked = match os_release_value(text, "PRETTY_NAME"@) {
        Some(v) => Some(v),
        None => os_release_value(text, "NAME"@),
    };
    match picked {
        Some(v) => if v.len() > 0 {
            Some(v)
        } else {
            None
        },
        None => None,
    }
}

/// The value that a non-empty text gives as the distro.
pub open spec fn nonblank(v: Seq<char>) -> Option<Seq<char>> {
    if v.len() > 0 {
        Some(v)
    } else {
        None
    }
}

/// Law: `PRETTY_NAME` wins wherever it stands: the distro is the value of
/// the first line that assigns it (`None` when that value is empty), what
/// lines assign `NAME` and where; only a file with no `PRETTY_NAME` line
/// falls back to the first `NAME` line, and a file with neither gives none.
pub proof fn lemma_distro_picks_pretty_name(text: Seq<char>, k: int)
    ensures
        ({
            let ls = lines(text);
            0 <= k < ls.len() && assignment(ls[k], "PRETTY_NAME"@) is Some && (forall|j: int|
                0 <= j < k ==> assignment(#[trigger] ls[j], "PRETTY_NAME"@) is None)
                ==> distro_of(text) == nonblank(assignment(ls[k], "PRETTY_NAME"@)->0)
        }),
        ({
            let ls = lines(text);
            (forall|j: int| 0 <= j < ls.len() ==> assignment(#[trigger] ls[j], "PRETTY_NAME"@) is None)
                && 0 <= k < ls.len() && assignment(ls[k], "NAME"@) is Some && (forall|j: int|
                0 <= j < k ==> assignment(#[trigger] ls[j], "NAME"@) is None) ==> distro_of(text)
                == nonblank(assignment(ls[k], "NAME"@)->0)
        }),
        ({
            let ls = lines(text);
            (forall|j: int|
                0 <= j < ls.len() ==> assignment(#[trigger] ls[j], "PRETTY_NAME"@) is None
                    && assignment(ls[j], "NAME"@) is None) ==> distro_of(text) is None
        }),
{
    let ls = lines(text);
    let fp = |l: Seq<char>| assignment(l, "PRETTY_NAME"@);
    let fn_ = |l: Seq<char>| assignment(l, "NAME"@);
    if 0 <= k < ls.len() && assignment(ls[k], "PRETTY_NAME"@) is Some && (forall|j: int|
        0 <= j < k ==> assignment(#[trigger] ls[j], "PRETTY_NAME"@) is None) {
        lemma_first_some_at(ls, fp, k);
    }
    if forall|j: int| 0 <= j < ls.len() ==> assignment(#[trigger] ls[j], "PRETTY_NAME"@) is None {
        lemma_first_some_none(ls, fp);
        if 0 <= k < ls.len() && assignment(ls[k], "NAME"@) is Some && (forall|j: int|
            0 <= j < k ==> assignment(#[trigger] ls[j], "NAME"@) is None) {
            lemma_first_some_at(ls, fn_, k);
        }
        if forall|j: int| 0 <= j < ls.len() ==> assignment(#[trigger] ls[j], "NAME"@) is None {
            lemma_first_some_none(ls, fn_);
        }
    }
}

fn assignment_exec(line: &Vec<char>, key: &str) -> (r: Option<Vec<char>>)
    ensures
        r.deep_view() == assignment(line@, key@),
{
    let eq = chars_of("=");
    match split_once_exec(line, &eq) {
        None => None,
        Some((k, v)) => {
            let k = trim_chars(&k);
            if eq_str(&k, key) {
                let v = trim_chars(&v);
                let v = trim_char_exec(&v, '"');
                proof {
                    lemma_chars_deep(v);
                }
                Some(v)
            } else {
                None
            }
        },
    }
}

fn os_release_value_exec(lines_v: &Vec<Vec<char>>, key: &str) -> (r: Option<Vec<char>>)
    ensures
        r.deep_view() == first_some(lines_v.deep_view(), |l: Seq<char>| assignment(l, key@)),
{
    let ghost lv = lines_v.deep_view();
    let ghost f = |l: Seq<char>| assignment(l, key@);
    let mut i: usize = 0;
    assert(lv.skip(0) =~= lv);
    while i < lines_v.len()
        invariant
            i <= lines_v@.len(),
            lv == lines_v.deep_view(),
            f == (|l: Seq<char>| assignment(l, key@)),
            first_some(lv, f) == first_some(lv.skip(i as int), f),
        decreases lines_v@.len() - i,
    {
        proof {
            lemma_chars_deep(lines_v@[i as int]);
            lemma_first_some_skip(lv, f, i as int);
        }
        match assignment_exec(&lines_v[i], key) {
            Some(v) => {
                return Some(v);
            },
            None => {},
        }
        i += 1;
    }
    assert(lv.skip(i as int) =~= Seq::<Seq<char>>::empty());
    None
}

/// Extract `PRETTY_NAME` (falling back to `NAME`) from os-release content.
pub fn parse_os_release(text: &str) -> (r: Option<String>)
    ensures
        r.deep_view() == distro_of(text@),
{
    let t = chars_of(text);
    let ls = lines_of(&t);
    let picked = match os_release_value_exec(&ls, "PRETTY_NAME") {
        Some(v) => Some(v),
        None => os_release_value_exec(&ls, "NAME"),
    };
    match picked {
        Some(v) => {
            proof {
                lemma_chars_deep(v);
            }
            if v.len() > 0 {
                Some(string_of(&v))
            } else {
                None
            }
        },
        None => None,
    }
}

// --------------------------------------------------------------------- uname

/// `uname -snrmo` output: sysname, nodename, release, machine, os.
pub open spec fn uname_of(text: Seq<char>) -> Option<OsView> {
    let w = words(text);
    if w.len() < 4 {
        None
    } else {
        Some(OsView { distro: None, hostname: Some(w[1]), kernel: Some(w[2]), arch: Some(w[3]) })
    }
}

/// Parse `uname -snrmo` output: `Linux fixy 6.12.107+deb13-amd64 x86_64 GNU/Linux`.
pub fn parse_uname(text: &str) -> (r: Option<Os>)
    ensures
        r.deep_view() == uname_of(text@),
{
    let t = chars_of(text);
    let w = words_of(&t);
    if w.len() < 4 {
        return None;
    }
    proof {
        lemma_chars_deep(w@[1]);
        lemma_chars_deep(w@[2]);
        lemma_chars_deep(w@[3]);
    }
    Some(
        Os {
            distro: None,
            hostname: Some(string_of(&w[1])),
            kernel: Some(string_of(&w[2])),
            arch: Some(string_of(&w[3])),
        },
    )
}

impl Os {
    /// The same identity with `distro` in place of the distro.
    pub fn with_distro(self, distro: Option<String>) -> (r: Os)
        ensures
            r == (Os { distro, ..self }),
    {
        let mut s = self;
        s.distro = distro;
        s
    }
}

/// The distro from the contents of /etc/os-release (when readable) and the
/// kernel, arch and hostname from `UNAME_COMMAND`.
pub open spec fn os_info_of(os_release: Option<Seq<char>>, uname: Option<Seq<char>>) -> OsView {
    let distro = match os_release {
        Some(t) => distro_of(trim(t)),
        None => None,
    };
    match uname {
        Some(u) => match uname_of(u) {
            Some(o) => OsView { distro, ..o },
            None => OsView { distro, kernel: None, arch: None, hostname: None },
        },
        None => OsView { distro, kernel: None, arch: None, hostname: None },
    }
}

pub open spec fn ok_text(r: Result<String, ShellError>) -> Option<Seq<char>> {
    match r {
        Ok(t) => Some(t@),
        Err(_) => None,
    }
}

/// Distro identity from the contents of /etc/os-release and the output of
/// `UNAME_COMMAND`; a failed uname leaves kernel, arch and hostname `None`.
pub fn os_info(os_release: Option<String>, uname: Result<String, ShellError>) -> (r: Os)
    ensures
        r.deep_view() == os_info_of(os_release.deep_view(), ok_text(uname)),
{
    let distro = match &os_release {
        Some(t) => {
            let c = chars_of(t.as_str());
            let c = trim_chars(&c);
            let s = string_of(&c);
            parse_os_release(s.as_str())
        },
        None => None,
    };
    let parsed = match &uname {
        Ok(text) => parse_uname(text.as_str()),
        Err(_) => None,
    };
    let base = match parsed {
        Some(o) => o,
        None => Os::default(),
    };
    base.with_distro(distro)
}

// --------------------------------------------------------------------- lscpu

/// The value of the first `key: value` line for `key`, trimmed.
pub open spec fn colon_value(line: Seq<char>, key: Seq<char>) -> Option<Seq<char>> {
    match split_once(line, ":"@) {
        None => None,
        Some((k, v)) => if trim(k) == key {
            Some(trim(v))
        } else {
            None
        },
    }
}

pub open spec fn lscpu_value(text: Seq<char>, key: Seq<char>) -> Option<Seq<char>> {
    first_some(lines(text), |l: Seq<char>| colon_value(l, key))
}

pub open spec fn parsed_u32(v: Option<Seq<char>>) -> Option<u32> {
    match v {
        Some(t) => parse_u32(t),
        None => None,
    }
}

/// `AuthenticAMD` is `AMD`, `GenuineIntel` is `Intel`, others pass through.
pub open spec fn vendor_name(id: Seq<char>) -> Seq<char> {
    if id == "AuthenticAMD"@ {
        "AMD"@
    } else if id == "GenuineIntel"@ {
        "Intel"@
    } else {
        id
    }
}

/// The product `cores per socket x sockets` fits a `u32` (sockets count 1
/// when not reported).
pub open spec fn lscpu_cores_fit(text: Seq<char>) -> bool {
    match parsed_u32(lscpu_value(text, "Core(s) per socket"@)) {
        Some(c) => c * match parsed_u32(lscpu_value(text, "Socket(s)"@)) {
            Some(s) => s as int,
            None => 1,
        } <= u32::MAX,
        None => true,
    }
}

/// The CPU that `LC_ALL=C lscpu` describes.
pub open spec fn cpu_of(text: Seq<char>) -> CpuView {
    let cores_per_socket = parsed_u32(lscpu_value(text, "Core(s) per socket"@));
    let sockets = parsed_u32(lscpu_value(text, "Socket(s)"@));
    CpuView {
        model: match lscpu_value(text, "Model name"@) {
            Some(m) => if m.len() > 0 {
                Some(m)
            } else {
                None
            },
            None => None,
        },
        vendor: match lscpu_value(text, "Vendor ID"@) {
            Some(v) => if v.len() > 0 {
                Some(vendor_name(v))
            } else {
                None
            },
            None => None,
        },
        cores: match cores_per_socket {
            Some(c) => Some(
                (c * match sockets {
                    Some(s) => s as int,
                    None => 1,
                }) as u32,
            ),
            None => None,
        },
        threads: parsed_u32(lscpu_value(text, "CPU(s)"@)),
        max_mhz: lscpu_value(text, "CPU max MHz"@),
    }
}

fn colon_value_exec(line: &Vec<char>, key: &str) -> (r: Option<Vec<char>>)
    ensures
        r.deep_view() == colon_value(line@, key@),
{
    let colon = chars_of(":");
    match split_once_exec(line, &colon) {
        None => None,
        Some((k, v)) => {
            let k = trim_chars(&k);
            if eq_str(&k, key) {
                let v = trim_chars(&v);
                proof {
                    lemma_chars_deep(v);
                }
                Some(v)
            } else {
                None
            }
        },
    }
}

fn lscpu_value_exec(lines_v: &Vec<Vec<char>>, key: &str) -> (r: Option<Vec<char>>)
    ensures
        r.deep_view() == first_some(lines_v.deep_view(), |l: Seq<char>| colon_value(l, key@)),
{
    let ghost lv = lines_v.deep_view();
    let ghost f = |l: Seq<char>| colon_value(l, key@);
    let mut i: usize = 0;
    assert(lv.skip(0) =~= lv);
    while i < lines_v.len()
        invariant
            i <= lines_v@.len(),
            lv == lines_v.deep_view(),
            f == (|l: Seq<char>| colon_value(l, key@)),
            first_some(lv, f) == first_some(lv.skip(i as int), f),
        decreases lines_v@.len() - i,
    {
        proof {
            lemma_chars_deep(lines_v@[i as int]);
            lemma_first_some_skip(lv, f, i as int);
        }
        match colon_value_exec(&lines_v[i], key) {
            Some(v) => {
                return Some(v);
            },
            None => {},
        }
        i += 1;
    }
    assert(lv.skip(i as int) =~= Seq::<Seq<char>>::empty());
    None
}

fn parsed_u32_exec(v: &Option<Vec<char>>) -> (r: Option<u32>)
    ensures
        r == parsed_u32(v.deep_view()),
{
    match v {
        Some(t) => {
            proof {
                lemma_chars_deep(*t);
            }
            parse_u32_exec(t)
        },
        None => None,
    }
}

/// Whether `parse_lscpu` can compute the core count of `text` without
/// overflow.
pub fn lscpu_cores_fit_exec(text: &str) -> (b: bool)
    ensures
        b == lscpu_cores_fit(text@),
{
    let t = chars_of(text);
    let ls = lines_of(&t);
    let cps = parsed_u32_exec(&lscpu_value_exec(&ls, "Core(s) per socket"));
    let sockets = parsed_u32_exec(&lscpu_value_exec(&ls, "Socket(s)"));
    match cps {
        Some(c) => {
            let s: u64 = match sockets {
                Some(s) => s as u64,
                None => 1,
            };
            let c64 = c as u64;
            assert(c64 * s <= 0xffff_ffff_ffff_ffff) by (nonlinear_arith)
                requires
                    c64 <= 0xffff_ffff,
                    s <= 0xffff_ffff,
            ;
            c64 * s <= u32::MAX as u64
        },
        None => true,
    }
}

/// Parse `LC_ALL=C lscpu` key/value lines into a [`Cpu`].
pub fn parse_lscpu(text: &str) -> (r: Cpu)
    requires
        lscpu_cores_fit(text@),
    ensures
        r.deep_view() == cpu_of(text@),
{
    let t = chars_of(text);
    let ls = lines_of(&t);
    let cores_per_socket = parsed_u32_exec(&lscpu_value_exec(&ls, "Core(s) per socket"));
    let sockets = parsed_u32_exec(&lscpu_value_exec(&ls, "Socket(s)"));
    let cores = match cores_per_socket {
        Some(c) => Some(
            c * match sockets {
                Some(s) => s,
                None => 1,
            },
        ),
        None => None,
    };
    let model = match lscpu_value_exec(&ls, "Model name") {
        Some(m) => {
            proof {
                lemma_chars_deep(m);
            }
            if m.len() > 0 {
                Some(string_of(&m))
            } else {
                None
            }
        },
        None => None,
    };
    let vendor = match lscpu_value_exec(&ls, "Vendor ID") {
        Some(v) => {
            proof {
                lemma_chars_deep(v);
            }
            if v.len() == 0 {
                None
            } else if eq_str(&v, "AuthenticAMD") {
                Some("AMD".to_owned())
            } else if eq_str(&v, "GenuineIntel") {
                Some("Intel".to_owned())
            } else {
                Some(string_of(&v))
            }
        },
        None => None,
    };
    let threads = parsed_u32_exec(&lscpu_value_exec(&ls, "CPU(s)"));
    let max_mhz = match lscpu_value_exec(&ls, "CPU max MHz") {
        Some(v) => {
            proof {
                lemma_chars_deep(v);
            }
            Some(string_of(&v))
        },
        None => None,
    };
    Cpu { model, vendor, cores, threads, max_mhz }
}

/// The requirement of `cpu_info` on the output it is handed.
pub open spec fn lscpu_output_fits(output: Option<Result<String, ShellError>>) -> bool {
    match output {
        Some(Ok(text)) => lscpu_cores_fit(text@),
        _ => true,
    }
}

/// CPU summary from the output of `LSCPU_COMMAND`; a failure is recorded in
/// `errors` under `lscpu`.
pub fn cpu_info(output: Option<Result<String, ShellError>>, errors: &mut Vec<ProbeError>) -> (r:
    Cpu)
    requires
        lscpu_output_fits(output),
    ensures
        match output {
            Some(Ok(text)) => r.deep_view() == cpu_of(text@) && final(errors)@ == old(errors)@,
            Some(Err(e)) => r == Cpu::default_spec() && final(errors).deep_view() == old(
                errors,
            ).deep_view().push(probe_error_view("lscpu"@, e)),
            None => r == Cpu::default_spec() && final(errors)@ == old(errors)@,
        },
{
    match output {
        None => Cpu::default(),
        Some(Ok(text)) => parse_lscpu(text.as_str()),
        Some(Err(e)) => {
            record_error(errors, "lscpu", &e);
            Cpu::default()
        },
    }
}


// ------------------------------------------------------------------ meminfo

/// The first word of a meminfo value (kB), as a number.
pub open spec fn kb_of(rest: Seq<char>) -> Option<u64> {
    let w = words(rest);
    if w.len() > 0 {
        parse_u64(w[0])
    } else {
        None
    }
}

pub open spec fn meminfo_line(line: Seq<char>, key: Seq<char>) -> Option<Option<u64>> {
    match split_once(line, ":"@) {
        None => None,
        Some((k, rest)) => if trim(k) == key {
            Some(kb_of(rest))
        } else {
            None
        },
    }
}

/// The kB value of the first line for `key`; `None` when there is none or
/// its value is not a number.
pub open spec fn meminfo_kb(text: Seq<char>, key: Seq<char>) -> Option<u64> {
    match first_some(lines(text), |l: Seq<char>| meminfo_line(l, key)) {
        Some(v) => v,
        None => None,
    }
}

pub open spec fn bytes_of(kb: Option<u64>) -> Option<u64> {
    match kb {
        Some(k) => Some((k * 1024) as u64),
        None => None,
    }
}

pub open spec fn kb_fits(kb: Option<u64>) -> bool {
    match kb {
        Some(k) => k * 1024 <= u64::MAX,
        None => true,
    }
}

/// The byte counts that `parse_meminfo` computes fit a `u64`.
pub open spec fn meminfo_fits(text: Seq<char>) -> bool {
    &&& kb_fits(meminfo_kb(text, "MemTotal"@))
    &&& kb_fits(meminfo_kb(text, "MemAvailable"@))
    &&& meminfo_kb(text, "MemAvailable"@) is None ==> kb_fits(meminfo_kb(text, "MemFree"@))
    &&& kb_fits(meminfo_kb(text, "SwapTotal"@))
}

/// Memory totals in bytes from /proc/meminfo (values there are kB);
/// `available_bytes` falls back to `MemFree` when `MemAvailable` is absent.
pub open spec fn memory_of(text: Seq<char>) -> Memory {
    Memory {
        total_bytes: bytes_of(meminfo_kb(text, "MemTotal"@)),
        available_bytes: match bytes_of(meminfo_kb(text, "MemAvailable"@)) {
            Some(b) => Some(b),
            None => bytes_of(meminfo_kb(text, "MemFree"@)),
        },
        swap_total_bytes: bytes_of(meminfo_kb(text, "SwapTotal"@)),
        zram_total_bytes: None,
    }
}

fn meminfo_line_exec(line: &Vec<char>, key: &str) -> (r: Option<Option<u64>>)
    ensures
        r == meminfo_line(line@, key@),
{
    let colon = chars_of(":");
    match split_once_exec(line, &colon) {
        None => None,
        Some((k, rest)) => {
            let k = trim_chars(&k);
            if eq_str(&k, key) {
                let w = words_of(&rest);
                if w.len() > 0 {
                    proof {
                        lemma_chars_deep(w@[0]);
                    }
                    Some(parse_u64_exec(&w[0]))
                } else {
                    Some(None)
                }
            } else {
                None
            }
        },
    }
}

fn meminfo_kb_exec(lines_v: &Vec<Vec<char>>, key: &str) -> (r: Option<u64>)
    ensures
        r == match first_some(lines_v.deep_view(), |l: Seq<char>| meminfo_line(l, key@)) {
            Some(v) => v,
            None => None,
        },
{
    let ghost lv = lines_v.deep_view();
    let ghost f = |l: Seq<char>| meminfo_line(l, key@);
    let mut i: usize = 0;
    assert(lv.skip(0) =~= lv);
    while i < lines_v.len()
        invariant
            i <= lines_v@.len(),
            lv == lines_v.deep_view(),
            f == (|l: Seq<char>| meminfo_line(l, key@)),
            first_some(lv, f) == first_some(lv.skip(i as int), f),
        decreases lines_v@.len() - i,
    {
        proof {
            lemma_chars_deep(lines_v@[i as int]);
            lemma_first_some_skip(lv, f, i as int);
        }
        match meminfo_line_exec(&lines_v[i], key) {
            Some(v) => {
                return v;
            },
            None => {},
        }
        i += 1;
    }
    assert(lv.skip(i as int) =~= Seq::<Seq<char>>::empty());
    None
}

fn kb_fits_exec(kb: Option<u64>) -> (b: bool)
    ensures
        b == kb_fits(kb),
{
    match kb {
        Some(k) => k <= u64::MAX / 1024,
        None => true,
    }
}

/// Whether `parse_meminfo` can compute the byte counts of `text` without
/// overflow.
pub fn meminfo_fits_exec(text: &str) -> (b: bool)
    ensures
        b == meminfo_fits(text@),
{
    let t = chars_of(text);
    let ls = lines_of(&t);
    let total = meminfo_kb_exec(&ls, "MemTotal");
    let available = meminfo_kb_exec(&ls, "MemAvailable");
    let free = meminfo_kb_exec(&ls, "MemFree");
    let swap = meminfo_kb_exec(&ls, "SwapTotal");
    kb_fits_exec(total) && kb_fits_exec(available) && (available.is_some() || kb_fits_exec(free))
        && kb_fits_exec(swap)
}

/// Parse /proc/meminfo totals (values are kB) into bytes.
pub fn parse_meminfo(text: &str) -> (r: Memory)
    requires
        meminfo_fits(text@),
    ensures
        r == memory_of(text@),
{
    let t = chars_of(text);
    let ls = lines_of(&t);
    let total = meminfo_kb_exec(&ls, "MemTotal");
    let available = meminfo_kb_exec(&ls, "MemAvailable");
    let swap = meminfo_kb_exec(&ls, "SwapTotal");
    let total_bytes = match total {
        Some(k) => Some(k * 1024),
        None => None,
    };
    let available_bytes = match available {
        Some(k) => Some(k * 1024),
        None => match meminfo_kb_exec(&ls, "MemFree") {
            Some(k) => Some(k * 1024),
            None => None,
        },
    };
    let swap_total_bytes = match swap {
        Some(k) => Some(k * 1024),
        None => None,
    };
    Memory { total_bytes, available_bytes, swap_total_bytes, zram_total_bytes: None }
}

// -------------------------------------------------------------------- swaps

/// The size (kB) of a zram swap row of /proc/swaps.
pub open spec fn zram_size_of_line(line: Seq<char>) -> Option<u64> {
    if "Filename"@.is_prefix_of(line) {
        None
    } else {
        let f = words(line);
        if f.len() >= 3 && contains(f[0], "zram"@) {
            parse_u64(f[2])
        } else {
            None
        }
    }
}

pub open spec fn zram_sizes(text: Seq<char>) -> Seq<u64> {
    lines(text).filter_map(|l: Seq<char>| zram_size_of_line(l))
}

pub open spec fn sum_of(s: Seq<u64>) -> nat
    decreases s.len(),
{
    if s.len() == 0 {
        0
    } else {
        sum_of(s.drop_last()) + (s.last() as nat)
    }
}

/// The zram total that `parse_swaps_zram` computes fits a `u64` in bytes.
pub open spec fn swaps_fit(text: Seq<char>) -> bool {
    sum_of(zram_sizes(text)) * 1024 <= u64::MAX
}

/// Total size in bytes of the zram swap devices; `None` when zram is not in
/// use.
pub open spec fn zram_total_of(text: Seq<char>) -> Option<u64> {
    let total = sum_of(zram_sizes(text));
    if total > 0 {
        Some((total * 1024) as u64)
    } else {
        None
    }
}

fn zram_size_of_line_exec(line: &Vec<char>) -> (r: Option<u64>)
    ensures
        r == zram_size_of_line(line@),
{
    let filename = chars_of("Filename");
    if starts_with_exec(line, &filename) {
        return None;
    }
    let f = words_of(line);
    if f.len() >= 3 {
        proof {
            lemma_chars_deep(f@[0]);
            lemma_chars_deep(f@[2]);
        }
        if contains_exec(&f[0], "zram") {
            return parse_u64_exec(&f[2]);
        }
    }
    None
}

proof fn lemma_sum_grows(lv: Seq<Seq<char>>, i: int)
    requires
        0 <= i <= lv.len(),
    ensures
        sum_of(lv.take(i).filter_map(|l: Seq<char>| zram_size_of_line(l))) <= sum_of(
            lv.filter_map(|l: Seq<char>| zram_size_of_line(l)),
        ),
    decreases lv.len() - i,
{
    let f = |l: Seq<char>| zram_size_of_line(l);
    if i < lv.len() {
        lv.lemma_filter_map_take_succ(f, i);
        let a = lv.take(i).filter_map(f);
        let b = lv.take(i + 1).filter_map(f);
        if f(lv[i]) is Some {
            assert(b.drop_last() =~= a);
        } else {
            assert(b =~= a);
        }
        lemma_sum_grows(lv, i + 1);
    } else {
        assert(lv.take(i) =~= lv);
    }
}

/// The zram total in kB, summed over the rows of `text`.
fn zram_kb_total(text: &str) -> (r: u64)
    requires
        swaps_fit(text@),
    ensures
        r == sum_of(zram_sizes(text@)),
{
    let t = chars_of(text);
    let ls = lines_of(&t);
    let ghost lv = lines(text@);
    let ghost f = |l: Seq<char>| zram_size_of_line(l);
    let mut total: u64 = 0;
    let mut i: usize = 0;
    assert(lv.take(0) =~= Seq::<Seq<char>>::empty());
    while i < ls.len()
        invariant
            i <= ls@.len(),
            ls.deep_view() == lv,
            lv == lines(text@),
            f == (|l: Seq<char>| zram_size_of_line(l)),
            swaps_fit(text@),
            total == sum_of(lv.take(i as int).filter_map(f)),
        decreases ls@.len() - i,
    {
        proof {
            lemma_chars_deep(ls@[i as int]);
            lv.lemma_filter_map_take_succ(f, i as int);
            lemma_sum_grows(lv, i as int + 1);
        }
        let ghost a = lv.take(i as int).filter_map(f);
        let ghost b = lv.take(i as int + 1).filter_map(f);
        match zram_size_of_line_exec(&ls[i]) {
            Some(kb) => {
                assert(b.drop_last() =~= a);
                total = total + kb;
            },
            None => {
                assert(b =~= a);
            },
        }
        i += 1;
    }
    assert(lv.take(i as int) =~= lv);
    total
}

/// Whether `parse_swaps_zram` can compute the zram total of `text` without
/// overflow.
pub fn swaps_fit_exec(text: &str) -> (b: bool)
    ensures
        b == swaps_fit(text@),
{
    let t = chars_of(text);
    let ls = lines_of(&t);
    let ghost lv = lines(text@);
    let ghost f = |l: Seq<char>| zram_size_of_line(l);
    let mut total: u64 = 0;
    let mut i: usize = 0;
    assert(lv.take(0) =~= Seq::<Seq<char>>::empty());
    while i < ls.len()
        invariant
            i <= ls@.len(),
            ls.deep_view() == lv,
            lv == lines(text@),
            f == (|l: Seq<char>| zram_size_of_line(l)),
            total == sum_of(lv.take(i as int).filter_map(f)),
            total <= u64::MAX / 1024,
        decreases ls@.len() - i,
    {
        proof {
            lemma_chars_deep(ls@[i as int]);
            lv.lemma_filter_map_take_succ(f, i as int);
            lemma_sum_grows(lv, i as int + 1);
        }
        let ghost a = lv.take(i as int).filter_map(f);
        let ghost b = lv.take(i as int + 1).filter_map(f);
        match zram_size_of_line_exec(&ls[i]) {
            Some(kb) => {
                assert(b.drop_last() =~= a);
                if kb > u64::MAX / 1024 - total {
                    return false;
                }
                total = total + kb;
            },
            None => {
                assert(b =~= a);
            },
        }
        i += 1;
    }
    assert(lv.take(i as int) =~= lv);
    true
}

/// Sum swap sizes of zram devices from /proc/swaps (sizes are kB); `None`
/// when zram is not in use.
pub fn parse_swaps_zram(text: &str) -> (r: Option<u64>)
    requires
        swaps_fit(text@),
    ensures
        r == zram_total_of(text@),
{
    let total = zram_kb_total(text);
    if total > 0 {
        Some(total * 1024)
    } else {
        None
    }
}

/// The memory section from the contents of /proc/meminfo and /proc/swaps,
/// each trimmed as read; `None` for a file that could not be read.
pub open spec fn memory_info_of(meminfo: Option<Seq<char>>, swaps: Option<Seq<char>>) -> Memory {
    let base = match meminfo {
        Some(t) => memory_of(trim(t)),
        None => Memory {
            total_bytes: None,
            available_bytes: None,
            swap_total_bytes: None,
            zram_total_bytes: None,
        },
    };
    Memory {
        zram_total_bytes: match swaps {
            Some(t) => zram_total_of(trim(t)),
            None => None,
        },
        ..base
    }
}

/// The files that `memory_info` reads hold numbers it can convert to bytes
/// without overflow.
pub open spec fn memory_files_fit(meminfo: Option<Seq<char>>, swaps: Option<Seq<char>>) -> bool {
    &&& meminfo matches Some(t) ==> meminfo_fits(trim(t))
    &&& swaps matches Some(t) ==> swaps_fit(trim(t))
}

fn trimmed(s: &String) -> (r: String)
    ensures
        r@ == trim(s@),
{
    let c = chars_of(s.as_str());
    let c = trim_chars(&c);
    string_of(&c)
}

/// Whether `memory_info` can convert these file contents without overflow.
pub fn memory_files_fit_exec(meminfo: &Option<String>, swaps: &Option<String>) -> (b: bool)
    ensures
        b == memory_files_fit(meminfo.deep_view(), swaps.deep_view()),
{
    let m = match meminfo {
        Some(t) => meminfo_fits_exec(trimmed(t).as_str()),
        None => true,
    };
    let s = match swaps {
        Some(t) => swaps_fit_exec(trimmed(t).as_str()),
        None => true,
    };
    m && s
}

/// Memory totals from /proc/meminfo plus zram devices from /proc/swaps.
pub fn memory_info(meminfo: Option<String>, swaps: Option<String>) -> (r: Memory)
    requires
        memory_files_fit(meminfo.deep_view(), swaps.deep_view()),
    ensures
        r == memory_info_of(meminfo.deep_view(), swaps.deep_view()),
{
    let mut memory = match &meminfo {
        Some(t) => parse_meminfo(trimmed(t).as_str()),
        None => Memory::default(),
    };
    memory.zram_total_bytes = match &swaps {
        Some(t) => parse_swaps_zram(trimmed(t).as_str()),
        None => None,
    };
    memory
}

} // verus!
