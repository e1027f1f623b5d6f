//! Radio kill switches via `rfkill list`. The tool is often absent; then
//! the section is empty.

use vstd::prelude::*;

use crate::model::{ProbeError, RfkillDevice, RfkillDeviceView};
use crate::probe::{probe_error_view, record_error};
use crate::shell::ShellError;
use crate::text::{
    chars_of, eq_str, is_indented, is_indented_exec, lemma_chars_deep, split_chars, split_on, split_once, split_once_exec,
    string_of, strip_prefix, strip_prefix_exec, trim, trim_chars,
};

verus! {

/// The command this probe runs.
pub const COMMAND: &'static str = "LC_ALL=C rfkill list";

/// `yes` and `no`, surrounding whitespace ignored; anything else is unknown.
pub open spec fn bool_of(value: Seq<char>) -> Option<bool> {
    let v = trim(value);
    if v == "yes"@ {
        Some(true)
    } else if v == "no"@ {
        Some(false)
    } else {
        None
    }
}

pub fn parse_bool(value: &str) -> (r: Option<bool>)
    ensures
        r == bool_of(value@),
{
    let v = chars_of(value);
    let v = trim_chars(&v);
    if eq_str(&v, "yes") {
        Some(true)
    } else if eq_str(&v, "no") {
        Some(false)
    } else {
        None
    }
}

/// The devices after one more line of `rfkill list`: a header such as
/// `0: phy0: Wireless LAN` opens a device named by what follows its first
/// `: `; an indented `Type:`, `Soft blocked:` or `Hard blocked:` line fills
/// the last device.
pub open spec fn rfkill_step(devs: Seq<RfkillDeviceView>, block: Seq<char>) -> Seq<
    RfkillDeviceView,
> {
    let line = trim(block);
    if line.len() == 0 {
        devs
    } else if !is_indented(block) {
        let name = match split_once(line, ": "@) {
            Some((_, rest)) => rest,
            None => Seq::empty(),
        };
        devs.push(
            RfkillDeviceView {
                name,
                device_type: "unknown"@,
                soft_blocked: None,
                hard_blocked: None,
            },
        )
    } else if devs.len() == 0 {
        devs
    } else {
        let cur = devs.last();
        let next = match strip_prefix(line, "Type: "@) {
            Some(kind) => RfkillDeviceView {
                name: cur.name,
                device_type: trim(kind),
                soft_blocked: cur.soft_blocked,
                hard_blocked: cur.hard_blocked,
            },
            None => match strip_prefix(line, "Soft blocked: "@) {
                Some(v) => RfkillDeviceView {
                    name: cur.name,
                    device_type: cur.device_type,
                    soft_blocked: bool_of(v),
                    hard_blocked: cur.hard_blocked,
                },
                None => match strip_prefix(line, "Hard blocked: "@) {
                    Some(v) => RfkillDeviceView {
                        name: cur.name,
                        device_type: cur.device_type,
                        soft_blocked: cur.soft_blocked,
                        hard_blocked: bool_of(v),
                    },
                    None => cur,
                },
            },
        };
        devs.update(devs.len() - 1, next)
    }
}

pub open spec fn rfkill_fold(blocks: Seq<Seq<char>>) -> Seq<RfkillDeviceView>
    decreases blocks.len(),
{
    if blocks.len() == 0 {
        Seq::empty()
    } else {
        rfkill_step(rfkill_fold(blocks.drop_last()), blocks.last())
    }
}

/// The devices that `rfkill list` describes, its text split at `\n`.
pub open spec fn rfkill_of(text: Seq<char>) -> Seq<RfkillDeviceView> {
    rfkill_fold(split_on(text, '\n'))
}

fn step(devices: &mut Vec<RfkillDevice>, block: &Vec<char>)
    ensures
        final(devices).deep_view() == rfkill_step(old(devices).deep_view(), block@),
{
    let line = trim_chars(block);
    if line.len() == 0 {
        return;
    }
    let ghost before = devices.deep_view();
    let indented = is_indented_exec(block);
    if !indented {
        let sep = chars_of(": ");
        let name = match split_once_exec(&line, &sep) {
            Some((_, rest)) => rest,
            None => Vec::new(),
        };
        devices.push(
            RfkillDevice {
                name: string_of(&name),
                device_type: "unknown".to_owned(),
                soft_blocked: None,
                hard_blocked: None,
            },
        );
        assert(devices.deep_view() =~= rfkill_step(before, block@));
        return;
    }
    if devices.len() == 0 {
        return;
    }
    let mut cur = devices.pop().unwrap();
    assert(devices.deep_view() =~= before.drop_last());
    let type_p = chars_of("Type: ");
    let soft_p = chars_of("Soft blocked: ");
    let hard_p = chars_of("Hard blocked: ");
    let ghost last = before.last();
    assert(cur.deep_view() == last);
    match strip_prefix_exec(&line, &type_p) {
        Some(kind) => {
            proof {
                lemma_chars_deep(kind);
            }
            let kind = trim_chars(&kind);
            cur.device_type = string_of(&kind);
        },
        None => match strip_prefix_exec(&line, &soft_p) {
            Some(v) => {
                proof {
                    lemma_chars_deep(v);
                }
                let s = string_of(&v);
                cur.soft_blocked = parse_bool(s.as_str());
            },
            None => match strip_prefix_exec(&line, &hard_p) {
                Some(v) => {
                    proof {
                        lemma_chars_deep(v);
                    }
                    let s = string_of(&v);
                    cur.hard_blocked = parse_bool(s.as_str());
                },
                None => {},
            },
        },
    }
    assert(cur.deep_view() == rfkill_step(before, block@).last());
    devices.push(cur);
    assert(devices.deep_view() =~= rfkill_step(before, block@));
}

/// Parse blocks such as
/// `0: phy0: Wireless LAN` / `\tType: wlan` / `\tSoft blocked: no` /
/// `\tHard blocked: no`.
pub fn parse_rfkill(text: &str) -> (r: Vec<RfkillDevice>)
    ensures
        r.deep_view() == rfkill_of(text@),
{
    let t = chars_of(text);
    let blocks = split_chars(&t, '\n');
    let ghost bv = split_on(text@, '\n');
    let mut devices: Vec<RfkillDevice> = Vec::new();
    let mut i: usize = 0;
    assert(bv.take(0) =~= Seq::<Seq<char>>::empty());
    assert(devices.deep_view() =~= rfkill_fold(bv.take(0)));
    while i < blocks.len()
        invariant
            i <= blocks@.len(),
            blocks.deep_view() == bv,
            devices.deep_view() == rfkill_fold(bv.take(i as int)),
        decreases blocks@.len() - i,
    {
        proof {
            lemma_chars_deep(blocks@[i as int]);
        }
        assert(bv.take(i as int + 1).drop_last() =~= bv.take(i as int));
        step(&mut devices, &blocks[i]);
        i += 1;
    }
    assert(bv.take(i as int) =~= bv);
    devices
}

/// Radio kill switches from the output of `COMMAND`; a failure is recorded
/// in `errors` under `rfkill`.
pub fn probe(output: Option<Result<String, ShellError>>, errors: &mut Vec<ProbeError>) -> (r: Vec<
    RfkillDevice,
>)
    ensures
        match output {
            None => r@.len() == 0 && final(errors)@ == old(errors)@,
            Some(Ok(text)) => r.deep_view() == rfkill_of(text@) && final(errors)@ == old(
                errors,
            )@,
            Some(Err(e)) => r@.len() == 0 && final(errors).deep_view() == old(
                errors,
            ).deep_view().push(probe_error_view("rfkill"@, e)),
        },
{
    match output {
        None => Vec::new(),
        Some(Ok(text)) => parse_rfkill(text.as_str()),
        Some(Err(e)) => {
            record_error(errors, "rfkill", &e);
            Vec::new()
        },
    }
}

} // verus!
