//! PCI devices with their kernel driver state, from two `lspci` outputs in
//! the C locale:
//! - `lspci -k -m` (machine-readable, quoted fields) gives slot, class,
//!   vendor and device names;
//! - `lspci -k` (human text) is the only source of `Kernel driver in use`
//!   and `Kernel modules`, read per slot and merged in.

use vstd::prelude::*;

use crate::model::{null_or_filled, PciDevice, PciDeviceView, ProbeError};
use crate::probe::{probe_error_view, record_error};
use crate::shell::ShellError;
use crate::text::{
    ascii_lower, ascii_lower_exec, chars_of, contains, contains_exec, copy_range, eq_str,
    is_indented, is_indented_exec, lemma_chars_deep, lemma_trim_ends, lemma_deep_view_empty, lemma_deep_view_push, lines, lines_of, nonempty, split_chars,
    split_on, split_once, split_once_exec, string_of, strip_prefix, strip_prefix_exec, trim,
    trim_chars, words, words_of,
};

verus! {

/// The command that lists the devices.
pub const MACHINE_COMMAND: &'static str = "LC_ALL=C lspci -k -m";

/// The command that tells the drivers and modules.
pub const DETAILS_COMMAND: &'static str = "LC_ALL=C lspci -k";

/// The next double-quoted field of `rest` and what follows it.
pub open spec fn next_quoted(rest: Seq<char>) -> Option<(Seq<char>, Seq<char>)> {
    match split_once(rest, seq!['"']) {
        None => None,
        Some((_, after)) => split_once(after, seq!['"']),
    }
}

/// One machine-readable line: `03:00.0 "Class" "Vendor" "Device" ...`.
pub open spec fn machine_of_line(line: Seq<char>) -> Option<
    (Seq<char>, Seq<char>, Seq<char>, Seq<char>),
> {
    match split_once(line, seq![' ']) {
        None => None,
        Some((slot, rest)) => match next_quoted(rest) {
            None => None,
            Some((class, r1)) => match next_quoted(r1) {
                None => None,
                Some((vendor, r2)) => match next_quoted(r2) {
                    None => None,
                    Some((device, _)) => Some((slot, class, vendor, device)),
                },
            },
        },
    }
}

pub open spec fn machine_of(text: Seq<char>) -> Seq<(Seq<char>, Seq<char>, Seq<char>, Seq<char>)> {
    lines(text).filter_map(|l: Seq<char>| machine_of_line(l))
}

/// The double-quoted fields of one lspci machine line, in order.
pub struct QuotedTokens {
    rest: Vec<char>,
}

impl View for QuotedTokens {
    type V = Seq<char>;

    closed spec fn view(&self) -> Seq<char> {
        self.rest@
    }
}

impl QuotedTokens {
    pub fn new(rest: &Vec<char>) -> (r: QuotedTokens)
        ensures
            r@ == rest@,
    {
        QuotedTokens { rest: copy_range(rest, 0, rest.len()) }
    }

    /// The next quoted field; `None` when no complete one is left.
    pub fn next(&mut self) -> (r: Option<String>)
        ensures
            match next_quoted(old(self)@) {
                None => r is None && final(self)@ == old(self)@,
                Some((value, rest)) => r matches Some(v) && v@ == value && final(self)@ == rest,
            },
    {
        let quote = vec!['"'];
        assert(quote@ =~= seq!['"']);
        let after = match split_once_exec(&self.rest, &quote) {
            None => {
                return None;
            },
            Some((_, after)) => after,
        };
        match split_once_exec(&after, &quote) {
            None => None,
            Some((value, rest)) => {
                self.rest = rest;
                Some(string_of(&value))
            },
        }
    }
}

fn machine_from_line(line: &Vec<char>) -> (r: Option<(String, String, String, String)>)
    ensures
        r.deep_view() == machine_of_line(line@),
{
    let space = vec![' '];
    assert(space@ =~= seq![' ']);
    let (slot, rest) = match split_once_exec(line, &space) {
        None => {
            return None;
        },
        Some(p) => p,
    };
    let mut quoted = QuotedTokens::new(&rest);
    let class = match quoted.next() {
        None => {
            return None;
        },
        Some(v) => v,
    };
    let vendor = match quoted.next() {
        None => {
            return None;
        },
        Some(v) => v,
    };
    let device = match quoted.next() {
        None => {
            return None;
        },
        Some(v) => v,
    };
    Some((string_of(&slot), class, vendor, device))
}

/// Parse machine-readable lines: `03:00.0 "Class" "Vendor" "Device" ...`
/// into (slot, class, vendor, device).
pub fn parse_machine(text: &str) -> (r: Vec<(String, String, String, String)>)
    ensures
        r.deep_view() == machine_of(text@),
{
    let t = chars_of(text);
    let ls = lines_of(&t);
    let ghost lv = lines(text@);
    let mut out: Vec<(String, String, String, String)> = Vec::new();
    let mut i: usize = 0;
    while i < ls.len()
        invariant
            i <= ls@.len(),
            ls.deep_view() == lv,
            out.deep_view() == lv.take(i as int).filter_map(|l: Seq<char>| machine_of_line(l)),
        decreases ls@.len() - i,
    {
        let line = &ls[i];
        proof {
            lemma_chars_deep(*line);
            lv.lemma_filter_map_take_succ(|l: Seq<char>| machine_of_line(l), i as int);
        }
        assert(line@ == lv[i as int]);
        let ghost before = out.deep_view();
        match machine_from_line(line) {
            Some(entry) => {
                out.push(entry);
                assert(out.deep_view() =~= before + seq![machine_of_line(line@).unwrap()]);
            },
            None => {},
        }
        i += 1;
    }
    assert(lv.take(i as int) =~= lv);
    out
}

/// Driver in use and claiming modules of one slot.
pub type DetailView = (Option<Seq<char>>, Seq<Seq<char>>);

/// The modules of a `Kernel modules:` value: comma-separated, trimmed,
/// empty names dropped.
pub open spec fn module_list(m: Seq<char>) -> Seq<Seq<char>> {
    split_on(m, ',').map_values(|x: Seq<char>| trim(x)).filter(nonempty())
}

/// The slot a device header names: its first word, when it holds both a
/// `.` and a `:`.
pub open spec fn header_slot(t: Seq<char>) -> Option<Seq<char>> {
    let w = words(t);
    let address = if w.len() > 0 {
        w[0]
    } else {
        Seq::empty()
    };
    if contains(address, seq!['.']) && contains(address, seq![':']) {
        Some(address)
    } else {
        None
    }
}

/// The current slot and the details so far, after one more line of
/// `lspci -k`.
pub open spec fn details_step(
    st: (Option<Seq<char>>, Map<Seq<char>, DetailView>),
    line: Seq<char>,
) -> (Option<Seq<char>>, Map<Seq<char>, DetailView>) {
    let t = trim(line);
    if t.len() == 0 {
        st
    } else if !is_indented(line) {
        match header_slot(t) {
            Some(slot) => (Some(slot), st.1),
            None => st,
        }
    } else {
        match st.0 {
            None => st,
            Some(cur) => {
                let e: DetailView = if st.1.contains_key(cur) {
                    st.1[cur]
                } else {
                    (None, Seq::empty())
                };
                let e2: DetailView = match strip_prefix(t, "Kernel driver in use: "@) {
                    Some(driver) => (Some(trim(driver)), e.1),
                    None => match strip_prefix(t, "Kernel modules: "@) {
                        Some(m) => (e.0, module_list(m)),
                        None => e,
                    },
                };
                (st.0, st.1.insert(cur, e2))
            },
        }
    }
}

pub open spec fn details_fold(ls: Seq<Seq<char>>) -> (Option<Seq<char>>, Map<Seq<char>, DetailView>)
    decreases ls.len(),
{
    if ls.len() == 0 {
        (None, Map::empty())
    } else {
        details_step(details_fold(ls.drop_last()), ls.last())
    }
}

/// Driver and modules per slot, from `lspci -k` text.
pub open spec fn details_of(text: Seq<char>) -> Map<Seq<char>, DetailView> {
    details_fold(lines(text)).1
}

/// A driver that is absent or named, and modules that are all named.
pub open spec fn detail_filled(d: DetailView) -> bool {
    null_or_filled(d.0) && forall|j: int| 0 <= j < d.1.len() ==> (#[trigger] d.1[j]).len() > 0
}

proof fn lemma_details_step_filled(st: (Option<Seq<char>>, Map<Seq<char>, DetailView>), line: Seq<char>)
    requires
        forall|k: Seq<char>| #[trigger] st.1.contains_key(k) ==> detail_filled(st.1[k]),
    ensures
        forall|k: Seq<char>| #[trigger] details_step(st, line).1.contains_key(k) ==> detail_filled(
            details_step(st, line).1[k],
        ),
{
    let t = trim(line);
    if t.len() > 0 && is_indented(line) && st.0 is Some {
        let cur = st.0->0;
        let e: DetailView = if st.1.contains_key(cur) {
            st.1[cur]
        } else {
            (None, Seq::empty())
        };
        assert(detail_filled(e));
        let p = "Kernel driver in use: "@;
        match strip_prefix(t, p) {
            Some(driver) => {
                reveal_strlit("Kernel driver in use: ");
                lemma_trim_ends(line);
                assert(driver == t.skip(p.len() as int));
                if driver.len() == 0 {
                    assert(t.len() == p.len());
                    assert(t.last() == t[p.len() - 1]);
                    assert(t[p.len() - 1] == p[p.len() - 1]);
                    assert(false);
                }
                assert(driver.last() == t.last());
                lemma_trim_ends(driver);
            },
            None => match strip_prefix(t, "Kernel modules: "@) {
                Some(m) => {
                    let ml = module_list(m);
                    assert forall|j: int| 0 <= j < ml.len() implies (#[trigger] ml[j]).len() > 0 by {
                        split_on(m, ',').map_values(|x: Seq<char>| trim(x)).lemma_filter_pred(
                            nonempty(),
                            j,
                        );
                    }
                },
                None => {},
            },
        }
    }
}

proof fn lemma_details_fold_filled(ls: Seq<Seq<char>>)
    ensures
        forall|k: Seq<char>| #[trigger] details_fold(ls).1.contains_key(k) ==> detail_filled(
            details_fold(ls).1[k],
        ),
    decreases ls.len(),
{
    if ls.len() > 0 {
        lemma_details_fold_filled(ls.drop_last());
        lemma_details_step_filled(details_fold(ls.drop_last()), ls.last());
    }
}

/// Every slot that `lspci -k` describes has a driver that is absent or
/// named, and only named modules.
pub proof fn lemma_details_filled(text: Seq<char>)
    ensures
        forall|k: Seq<char>| #[trigger] details_of(text).contains_key(k) ==> detail_filled(
            details_of(text)[k],
        ),
{
    lemma_details_fold_filled(lines(text));
}

/// Driver in use and claiming modules of one PCI slot.
#[derive(Debug, Clone, PartialEq)]
pub struct PciDetail {
    pub slot: String,
    pub driver: Option<String>,
    pub modules: Vec<String>,
}

pub open spec fn entries_map(es: Seq<PciDetail>) -> Map<Seq<char>, DetailView>
    decreases es.len(),
{
    if es.len() == 0 {
        Map::empty()
    } else {
        entries_map(es.drop_last()).insert(
            es.last().slot@,
            (es.last().driver.deep_view(), es.last().modules.deep_view()),
        )
    }
}

/// Driver and modules per slot; a later entry for a slot replaces an
/// earlier one.
#[derive(Debug, Clone, PartialEq)]
pub struct PciDetails {
    entries: Vec<PciDetail>,
}

impl View for PciDetails {
    type V = Map<Seq<char>, DetailView>;

    closed spec fn view(&self) -> Map<Seq<char>, DetailView> {
        entries_map(self.entries@)
    }
}

proof fn lemma_entries_map_last(es: Seq<PciDetail>, k: Seq<char>, j: int)
    requires
        0 <= j <= es.len(),
        forall|i: int| j <= i < es.len() ==> (#[trigger] es[i]).slot@ != k,
    ensures
        entries_map(es).contains_key(k) == entries_map(es.take(j)).contains_key(k),
        entries_map(es).contains_key(k) ==> entries_map(es)[k] == entries_map(es.take(j))[k],
    decreases es.len() - j,
{
    if j < es.len() {
        assert forall|i: int| j <= i < es.drop_last().len() implies (#[trigger] es.drop_last()[
            i]).slot@ != k by {
            assert(es.drop_last()[i] == es[i]);
        }
        lemma_entries_map_last(es.drop_last(), k, j);
        assert(es.drop_last().take(j) == es.take(j));
        assert(es.last() == es[es.len() - 1]);
    } else {
        assert(es.take(j) == es);
    }
}

impl PciDetails {
    pub fn new() -> (r: PciDetails)
        ensures
            r@ == Map::<Seq<char>, DetailView>::empty(),
    {
        PciDetails { entries: Vec::new() }
    }

    /// The details of `slot`, when any were read.
    pub fn get(&self, slot: &str) -> (r: Option<&PciDetail>)
        ensures
            match r {
                Some(d) => self@.contains_key(slot@) && self@[slot@] == (
                    d.driver.deep_view(),
                    d.modules.deep_view(),
                ) && d.slot@ == slot@,
                None => !self@.contains_key(slot@),
            },
    {
        let k = chars_of(slot);
        let mut j: usize = self.entries.len();
        while j > 0
            invariant
                j <= self.entries@.len(),
                k@ == slot@,
                forall|i: int| j <= i < self.entries@.len() ==> (#[trigger] self.entries@[i]).slot@
                    != slot@,
            decreases j,
        {
            let e = &self.entries[j - 1];
            let s = chars_of(e.slot.as_str());
            if crate::text::eq_str(&s, slot) {
                proof {
                    lemma_entries_map_last(self.entries@, slot@, j as int);
                    let es = self.entries@.take(j as int);
                    assert(es.drop_last() == self.entries@.take(j - 1));
                    assert(es.last() == self.entries@[j - 1]);
                }
                return Some(e);
            }
            j -= 1;
        }
        proof {
            lemma_entries_map_last(self.entries@, slot@, 0);
            assert(self.entries@.take(0) =~= Seq::<PciDetail>::empty());
        }
        None
    }

    /// Sets the details of `slot`.
    pub fn set(&mut self, slot: String, driver: Option<String>, modules: Vec<String>)
        ensures
            final(self)@ == old(self)@.insert(slot@, (driver.deep_view(), modules.deep_view())),
    {
        let ghost before = self.entries@;
        self.entries.push(PciDetail { slot, driver, modules });
        assert(self.entries@.drop_last() =~= before);
    }
}

fn copy_string(s: &String) -> (r: String)
    ensures
        r@ == s@,
{
    s.clone()
}

fn copy_opt_string(s: &Option<String>) -> (r: Option<String>)
    ensures
        r.deep_view() == s.deep_view(),
{
    match s {
        Some(v) => Some(copy_string(v)),
        None => None,
    }
}

fn copy_strings(v: &Vec<String>) -> (r: Vec<String>)
    ensures
        r.deep_view() == v.deep_view(),
{
    let mut r: Vec<String> = Vec::new();
    let mut i: usize = 0;
    while i < v.len()
        invariant
            i <= v@.len(),
            r.deep_view() == v.deep_view().take(i as int),
        decreases v@.len() - i,
    {
        let ghost before = r;
        let c = copy_string(&v[i]);
        r.push(c);
        proof {
            lemma_deep_view_push(before, c, r);
        }
        i += 1;
        assert(r.deep_view() =~= v.deep_view().take(i as int));
    }
    assert(v.deep_view().take(i as int) =~= v.deep_view());
    r
}

/// The module names of a `Kernel modules:` value.
fn module_list_exec(m: &Vec<char>) -> (r: Vec<String>)
    ensures
        r.deep_view() == module_list(m@),
{
    let parts = split_chars(m, ',');
    let ghost pv = split_on(m@, ',');
    let ghost f = |x: Seq<char>| trim(x);
    let mut out: Vec<String> = Vec::new();
    let mut i: usize = 0;
    proof {
        reveal(Seq::filter);
    }
    assert(out.deep_view() =~= pv.take(0).map_values(f).filter(nonempty()));
    while i < parts.len()
        invariant
            i <= parts@.len(),
            parts.deep_view() == pv,
            f == (|x: Seq<char>| trim(x)),
            out.deep_view() == pv.take(i as int).map_values(f).filter(nonempty()),
        decreases parts@.len() - i,
    {
        proof {
            lemma_chars_deep(parts@[i as int]);
        }
        let name = trim_chars(&parts[i]);
        let ghost prev = pv.take(i as int).map_values(f);
        assert(pv.take(i as int + 1).map_values(f) =~= prev.push(name@));
        proof {
            prev.lemma_filter_push(name@, nonempty());
        }
        if name.len() > 0 {
            let ghost before = out.deep_view();
            out.push(string_of(&name));
            assert(out.deep_view() =~= before.push(name@));
        }
        i += 1;
    }
    assert(pv.take(i as int) =~= pv);
    out
}

fn header_slot_exec(t: &Vec<char>) -> (r: Option<Vec<char>>)
    ensures
        r.deep_view() == header_slot(t@),
{
    let w = words_of(t);
    let address = if w.len() > 0 {
        proof {
            lemma_chars_deep(w@[0]);
        }
        copy_range(&w[0], 0, w[0].len())
    } else {
        Vec::new()
    };
    assert(address@ =~= (if w@.len() > 0 {
        words(t@)[0]
    } else {
        Seq::empty()
    }));
    let dot = vec!['.'];
    let colon = vec![':'];
    assert(dot@ =~= seq!['.']);
    assert(colon@ =~= seq![':']);
    if crate::text::find_exec(&address, &dot).is_some() && crate::text::find_exec(
        &address,
        &colon,
    ).is_some() {
        proof {
            lemma_chars_deep(address);
        }
        Some(address)
    } else {
        None
    }
}

/// Parse human `lspci -k` blocks for driver and module names per slot.
pub fn parse_details(text: &str) -> (r: PciDetails)
    ensures
        r@ == details_of(text@),
{
    let t = chars_of(text);
    let ls = lines_of(&t);
    let ghost lv = lines(text@);
    let mut details = PciDetails::new();
    let mut slot: Option<Vec<char>> = None;
    let driver_p = chars_of("Kernel driver in use: ");
    let modules_p = chars_of("Kernel modules: ");
    let mut i: usize = 0;
    assert(lv.take(0) =~= Seq::<Seq<char>>::empty());
    while i < ls.len()
        invariant
            i <= ls@.len(),
            ls.deep_view() == lv,
            driver_p@ == "Kernel driver in use: "@,
            modules_p@ == "Kernel modules: "@,
            (slot.deep_view(), details@) == details_fold(lv.take(i as int)),
        decreases ls@.len() - i,
    {
        let line = &ls[i];
        proof {
            lemma_chars_deep(*line);
        }
        assert(line@ == lv[i as int]);
        assert(lv.take(i as int + 1).drop_last() =~= lv.take(i as int));
        let ghost st = (slot.deep_view(), details@);
        let trimmed = trim_chars(line);
        if trimmed.len() == 0 {
        } else if !is_indented_exec(line) {
            match header_slot_exec(&trimmed) {
                Some(s) => {
                    slot = Some(s);
                },
                None => {},
            }
        } else {
            match &slot {
                None => {},
                Some(cur) => {
                    let cur_s = string_of(cur);
                    proof {
                        lemma_chars_deep(*cur);
                    }
                    let (driver, modules) = match details.get(cur_s.as_str()) {
                        Some(d) => (copy_opt_string(&d.driver), copy_strings(&d.modules)),
                        None => {
                            let empty: Vec<String> = Vec::new();
                            proof {
                                lemma_deep_view_empty(empty);
                            }
                            (None, empty)
                        },
                    };
                    let ghost e: DetailView = (driver.deep_view(), modules.deep_view());
                    assert(e == (if st.1.contains_key(cur@) {
                        st.1[cur@]
                    } else {
                        (None, Seq::<Seq<char>>::empty())
                    }));
                    match strip_prefix_exec(&trimmed, &driver_p) {
                        Some(d) => {
                            proof {
                                lemma_chars_deep(d);
                            }
                            let d = trim_chars(&d);
                            details.set(cur_s, Some(string_of(&d)), modules);
                        },
                        None => match strip_prefix_exec(&trimmed, &modules_p) {
                            Some(m) => {
                                proof {
                                    lemma_chars_deep(m);
                                }
                                let list = module_list_exec(&m);
                                details.set(cur_s, driver, list);
                            },
                            None => {
                                details.set(cur_s, driver, modules);
                            },
                        },
                    }
                },
            }
        }
        assert((slot.deep_view(), details@) == details_step(st, line@));
        i += 1;
    }
    assert(lv.take(i as int) =~= lv);
    details
}

/// One of the words of a class name is `x`.
pub open spec fn has_word(w: Seq<Seq<char>>, x: Seq<char>) -> bool {
    exists|i: int| 0 <= i < w.len() && w[i] == x
}

/// The class names of display hardware: those that begin with `VGA`,
/// `Display` or `3D controller` (case aside).
pub open spec fn is_gpu_class(w: Seq<Seq<char>>) -> bool {
    ||| w.len() > 0 && (w[0] == "vga"@ || w[0] == "display"@)
    ||| w.len() > 1 && w[0] == "3d"@ && w[1] == "controller"@
}

/// The class names of storage controllers: those with one of the words
/// `Non-Volatile`, `SATA`, `IDE` or `RAID` (case aside).
pub open spec fn is_storage_class(w: Seq<Seq<char>>) -> bool {
    has_word(w, "non-volatile"@) || has_word(w, "sata"@) || has_word(w, "ide"@) || has_word(
        w,
        "raid"@,
    )
}

/// Map a pci.ids class name to a coarse diagnostic category: `gpu` (VGA,
/// Display, 3D), `wireless` (Network controller), `ethernet`, `audio`,
/// `storage` (NVMe, SATA, IDE, RAID), otherwise `other`.
pub open spec fn category_of(class: Seq<char>) -> Seq<char> {
    let c = ascii_lower(class);
    let w = words(c);
    if is_gpu_class(w) {
        "gpu"@
    } else if contains(c, "network controller"@) {
        "wireless"@
    } else if contains(c, "ethernet"@) {
        "ethernet"@
    } else if contains(c, "audio"@) {
        "audio"@
    } else if is_storage_class(w) {
        "storage"@
    } else {
        "other"@
    }
}

fn has_word_exec(w: &Vec<Vec<char>>, x: &str) -> (b: bool)
    ensures
        b == has_word(w.deep_view(), x@),
{
    let ghost wv = w.deep_view();
    let mut i: usize = 0;
    while i < w.len()
        invariant
            i <= w@.len(),
            wv == w.deep_view(),
            forall|j: int| 0 <= j < i ==> wv[j] != x@,
        decreases w@.len() - i,
    {
        proof {
            lemma_chars_deep(w@[i as int]);
        }
        if eq_str(&w[i], x) {
            assert(wv[i as int] == x@);
            return true;
        }
        i += 1;
    }
    false
}

fn is_gpu_class_exec(w: &Vec<Vec<char>>) -> (b: bool)
    ensures
        b == is_gpu_class(w.deep_view()),
{
    let ghost wv = w.deep_view();
    if w.len() > 0 {
        proof {
            lemma_chars_deep(w@[0]);
        }
        if eq_str(&w[0], "vga") || eq_str(&w[0], "display") {
            return true;
        }
    }
    if w.len() > 1 {
        proof {
            lemma_chars_deep(w@[1]);
        }
        return eq_str(&w[0], "3d") && eq_str(&w[1], "controller");
    }
    false
}

/// Law: every class name falls in one of the six categories of the
/// contract.
pub proof fn lemma_category_values(class: Seq<char>)
    ensures
        ({
            let c = category_of(class);
            ||| c == "gpu"@
            ||| c == "wireless"@
            ||| c == "ethernet"@
            ||| c == "audio"@
            ||| c == "storage"@
            ||| c == "other"@
        }),
{
}

/// Map a pci.ids class name to a coarse diagnostic category.
pub fn category(class: &str) -> (r: &'static str)
    ensures
        r@ == category_of(class@),
{
    let v = chars_of(class);
    let c = ascii_lower_exec(&v);
    let w = words_of(&c);
    if is_gpu_class_exec(&w) {
        "gpu"
    } else if contains_exec(&c, "network controller") {
        "wireless"
    } else if contains_exec(&c, "ethernet") {
        "ethernet"
    } else if contains_exec(&c, "audio") {
        "audio"
    } else if has_word_exec(&w, "non-volatile") || has_word_exec(&w, "sata") || has_word_exec(
        &w,
        "ide",
    ) || has_word_exec(&w, "raid") {
        "storage"
    } else {
        "other"
    }
}

/// The device of one machine entry, with the driver and modules that the
/// details hold for its slot.
pub open spec fn device_of(
    entry: (Seq<char>, Seq<char>, Seq<char>, Seq<char>),
    details: Map<Seq<char>, DetailView>,
) -> PciDeviceView {
    let (slot, class, vendor, device) = entry;
    let d: DetailView = if details.contains_key(slot) {
        details[slot]
    } else {
        (None, Seq::empty())
    };
    PciDeviceView {
        slot,
        class,
        vendor,
        device,
        driver_in_use: d.0,
        modules: d.1,
        category: category_of(class),
    }
}

pub open spec fn merge(
    machine: Seq<(Seq<char>, Seq<char>, Seq<char>, Seq<char>)>,
    details: Map<Seq<char>, DetailView>,
) -> Seq<PciDeviceView> {
    machine.map_values(|e: (Seq<char>, Seq<char>, Seq<char>, Seq<char>)| device_of(e, details))
}

/// Each machine entry with the driver and modules of its slot.
pub fn merge_devices(machine: Vec<(String, String, String, String)>, details: &PciDetails) -> (r:
    Vec<PciDevice>)
    ensures
        r.deep_view() == merge(machine.deep_view(), details@),
{
    let mut out: Vec<PciDevice> = Vec::new();
    let mut i: usize = 0;
    while i < machine.len()
        invariant
            i <= machine@.len(),
            out.deep_view() == merge(machine.deep_view().take(i as int), details@),
        decreases machine@.len() - i,
    {
        let entry = &machine[i];
        let (driver_in_use, modules) = match details.get(entry.0.as_str()) {
            Some(d) => (copy_opt_string(&d.driver), copy_strings(&d.modules)),
            None => {
                let empty: Vec<String> = Vec::new();
                proof {
                    lemma_deep_view_empty(empty);
                }
                (None, empty)
            },
        };
        let category = category(entry.1.as_str());
        let dev = PciDevice {
            slot: copy_string(&entry.0),
            class: copy_string(&entry.1),
            vendor: copy_string(&entry.2),
            device: copy_string(&entry.3),
            driver_in_use,
            modules,
            category: category.to_owned(),
        };
        assert(machine.deep_view()[i as int] == (entry.0@, entry.1@, entry.2@, entry.3@));
        assert(dev.deep_view() == device_of(machine.deep_view()[i as int], details@));
        let ghost before = out;
        out.push(dev);
        proof {
            lemma_deep_view_push(before, dev, out);
        }
        i += 1;
        assert(out.deep_view() =~= merge(machine.deep_view().take(i as int), details@));
    }
    assert(machine.deep_view().take(i as int) =~= machine.deep_view());
    out
}

/// The details that a `lspci -k` run gives: none when it failed or was not
/// run.
pub open spec fn details_or_empty(details: Option<Result<String, ShellError>>) -> Map<
    Seq<char>,
    DetailView,
> {
    match details {
        Some(Ok(text)) => details_of(text@),
        _ => Map::empty(),
    }
}

/// PCI devices from the output of `MACHINE_COMMAND` and, when that
/// answered, of `DETAILS_COMMAND`. A failure of the first is recorded in
/// `errors` under `lspci`; a failure of the second leaves every driver
/// `None` and every module list empty.
pub fn probe(
    machine: Option<Result<String, ShellError>>,
    details: Option<Result<String, ShellError>>,
    errors: &mut Vec<ProbeError>,
) -> (r: Vec<PciDevice>)
    ensures
        match machine {
            None => r@.len() == 0 && final(errors)@ == old(errors)@,
            Some(Ok(text)) => r.deep_view() == merge(machine_of(text@), details_or_empty(details))
                && final(errors)@ == old(errors)@,
            Some(Err(e)) => r@.len() == 0 && final(errors).deep_view() == old(
                errors,
            ).deep_view().push(probe_error_view("lspci"@, e)),
        },
{
    match machine {
        None => Vec::new(),
        Some(Err(e)) => {
            record_error(errors, "lspci", &e);
            Vec::new()
        },
        Some(Ok(text)) => {
            let entries = parse_machine(text.as_str());
            let table = match details {
                Some(Ok(d)) => parse_details(d.as_str()),
                _ => PciDetails::new(),
            };
            merge_devices(entries, &table)
        },
    }
}

} // verus!
