//! USB devices via `lsusb`.

use vstd::prelude::*;

use crate::model::{ProbeError, UsbDevice, UsbDeviceView};
use crate::probe::{probe_error_view, record_error};
use crate::shell::ShellError;
use crate::text::{
    chars_of, eq_str, lemma_chars_deep, lines, lines_of, split_once, split_once_exec, string_of,
    trim, trim_chars, trim_end_char, trim_end_char_exec, words, words_of,
};

verus! {

/// The command this probe runs.
pub const COMMAND: &'static str = "LC_ALL=C lsusb";

/// The text between the first ` ID ` of a line and the next one.
pub open spec fn after_id(line: Seq<char>) -> Option<Seq<char>> {
    match split_once(line, " ID "@) {
        None => None,
        Some((_, after)) => match split_once(after, " ID "@) {
            Some((piece, _)) => Some(piece),
            None => Some(after),
        },
    }
}

/// One row: `Bus 001 Device 003: ID 0bda:b00e Realtek Bluetooth Radio`.
pub open spec fn usb_of_line(line: Seq<char>) -> Option<UsbDeviceView> {
    let w = words(line);
    if w.len() >= 4 && w[0] == "Bus"@ && w[2] == "Device"@ {
        match after_id(line) {
            None => None,
            Some(rest) => match split_once(rest, seq![' ']) {
                None => None,
                Some((id, name)) => match split_once(id, seq![':']) {
                    None => None,
                    Some((vendor_id, product_id)) => Some(
                        UsbDeviceView {
                            bus: w[1],
                            device: trim_end_char(w[3], ':'),
                            vendor_id,
                            product_id,
                            name: trim(name),
                        },
                    ),
                },
            },
        }
    } else {
        None
    }
}

pub open spec fn usb_devices_of(text: Seq<char>) -> Seq<UsbDeviceView> {
    lines(text).filter_map(|l: Seq<char>| usb_of_line(l))
}

fn after_id_exec(line: &Vec<char>) -> (r: Option<Vec<char>>)
    ensures
        r.deep_view() == after_id(line@),
{
    let pat = chars_of(" ID ");
    match split_once_exec(line, &pat) {
        None => None,
        Some((_, after)) => match split_once_exec(&after, &pat) {
            Some((piece, _)) => {
                proof {
                    lemma_chars_deep(piece);
                }
                Some(piece)
            },
            None => {
                proof {
                    lemma_chars_deep(after);
                }
                Some(after)
            },
        },
    }
}

fn usb_from_line(line: &Vec<char>) -> (r: Option<UsbDevice>)
    ensures
        r.deep_view() == usb_of_line(line@),
{
    let w = words_of(line);
    if w.len() >= 4 && eq_str(&w[0], "Bus") && eq_str(&w[2], "Device") {
        proof {
            lemma_chars_deep(w@[0]);
            lemma_chars_deep(w@[1]);
            lemma_chars_deep(w@[2]);
            lemma_chars_deep(w@[3]);
        }
        let rest = match after_id_exec(line) {
            None => {
                return None;
            },
            Some(rest) => rest,
        };
        proof {
            lemma_chars_deep(rest);
        }
        let space = vec![' '];
        assert(space@ =~= seq![' ']);
        let (id, name) = match split_once_exec(&rest, &space) {
            None => {
                return None;
            },
            Some(p) => p,
        };
        let colon = vec![':'];
        assert(colon@ =~= seq![':']);
        let (vendor_id, product_id) = match split_once_exec(&id, &colon) {
            None => {
                return None;
            },
            Some(p) => p,
        };
        let device = trim_end_char_exec(&w[3], ':');
        let name = trim_chars(&name);
        Some(
            UsbDevice {
                bus: string_of(&w[1]),
                device: string_of(&device),
                vendor_id: string_of(&vendor_id),
                product_id: string_of(&product_id),
                name: string_of(&name),
            },
        )
    } else {
        proof {
            if w@.len() >= 4 {
                lemma_chars_deep(w@[0]);
                lemma_chars_deep(w@[2]);
            }
        }
        None
    }
}

/// Parse lines like `Bus 001 Device 003: ID 0bda:b00e Realtek Bluetooth Radio`.
pub fn parse_usb(text: &str) -> (r: Vec<UsbDevice>)
    ensures
        r.deep_view() == usb_devices_of(text@),
{
    let t = chars_of(text);
    let ls = lines_of(&t);
    let ghost lv = lines(text@);
    let mut out: Vec<UsbDevice> = Vec::new();
    let mut i: usize = 0;
    while i < ls.len()
        invariant
            i <= ls@.len(),
            ls.deep_view() == lv,
            out.deep_view() == lv.take(i as int).filter_map(|l: Seq<char>| usb_of_line(l)),
        decreases ls@.len() - i,
    {
        let line = &ls[i];
        proof {
            lemma_chars_deep(*line);
            lv.lemma_filter_map_take_succ(|l: Seq<char>| usb_of_line(l), i as int);
        }
        assert(line@ == lv[i as int]);
        let ghost before = out.deep_view();
        match usb_from_line(line) {
            Some(dev) => {
                out.push(dev);
                assert(out.deep_view() =~= before + seq![usb_of_line(line@).unwrap()]);
            },
            None => {},
        }
        i += 1;
    }
    assert(lv.take(i as int) =~= lv);
    out
}

/// USB devices from the output of `COMMAND`; a failure is recorded in
/// `errors` under `lsusb`.
pub fn probe(output: Option<Result<String, ShellError>>, errors: &mut Vec<ProbeError>) -> (r: Vec<
    UsbDevice,
>)
    ensures
        match output {
            None => r@.len() == 0 && final(errors)@ == old(errors)@,
            Some(Ok(text)) => r.deep_view() == usb_devices_of(text@) && final(errors)@ == old(
                errors,
            )@,
            Some(Err(e)) => r@.len() == 0 && final(errors).deep_view() == old(
                errors,
            ).deep_view().push(probe_error_view("lsusb"@, e)),
        },
{
    match output {
        None => Vec::new(),
        Some(Ok(text)) => parse_usb(text.as_str()),
        Some(Err(e)) => {
            record_error(errors, "lsusb", &e);
            Vec::new()
        },
    }
}

} // verus!
