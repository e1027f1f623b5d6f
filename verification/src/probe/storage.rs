//! Block devices via `lsblk` (whole disks only).

use vstd::prelude::*;

use crate::model::{null_or_filled, ProbeError, StorageDevice, StorageDeviceView};
use crate::number::{parse_u64, parse_u64_exec};
use crate::probe::{probe_error_view, record_error};
use crate::shell::ShellError;
use crate::text::{
    chars_of, eq_str, join, join_exec, lemma_chars_deep, lemma_words_named, lines, lines_of,
    string_of, trim, trim_chars, words, words_of,
};

verus! {

/// The command this probe runs.
pub const COMMAND: &'static str = "LC_ALL=C lsblk -bno NAME,MODEL,SIZE,TYPE,TRAN,RM -l";

/// Transports lsblk can report; they tell an empty TRAN column apart.
pub open spec fn is_transport(t: Seq<char>) -> bool {
    ||| t == "nvme"@
    ||| t == "sata"@
    ||| t == "sas"@
    ||| t == "usb"@
    ||| t == "mmc"@
    ||| t == "fc"@
    ||| t == "iscsi"@
    ||| t == "fcoe"@
    ||| t == "rbd"@
    ||| t == "nbd"@
}

pub open spec fn removable_of(t: Seq<char>) -> Option<bool> {
    if t == "0"@ {
        Some(false)
    } else if t == "1"@ {
        Some(true)
    } else {
        None
    }
}

/// One `NAME MODEL SIZE TYPE TRAN RM` row, read right to left: RM, TRAN
/// when the token is a known transport, TYPE (kept only when `disk`), SIZE,
/// then NAME and the words of MODEL.
pub open spec fn storage_of_line(line: Seq<char>) -> Option<StorageDeviceView> {
    let t = words(line);
    if t.len() < 4 {
        None
    } else {
        let t1 = t.drop_last();
        let has_tran = is_transport(t1.last());
        let t2 = if has_tran {
            t1.drop_last()
        } else {
            t1
        };
        let device_type = t2.last();
        let t3 = t2.drop_last();
        let t4 = t3.drop_last();
        if device_type != "disk"@ || t4.len() == 0 {
            None
        } else {
            let model = trim(join(t4.drop_first(), seq![' ']));
            Some(
                StorageDeviceView {
                    name: t4[0],
                    model: if model.len() > 0 {
                        Some(model)
                    } else {
                        None
                    },
                    size_bytes: parse_u64(t3.last()),
                    device_type,
                    transport: if has_tran {
                        Some(t1.last())
                    } else {
                        None
                    },
                    removable: removable_of(t.last()),
                },
            )
        }
    }
}

pub open spec fn storage_of(text: Seq<char>) -> Seq<StorageDeviceView> {
    lines(text).filter_map(|l: Seq<char>| storage_of_line(l))
}

proof fn lemma_storage_line(line: Seq<char>)
    ensures
        storage_of_line(line) matches Some(d) ==> d.device_type == "disk"@ && null_or_filled(
            d.model,
        ) && null_or_filled(d.transport),
{
    lemma_words_named(line);
    let t = words(line);
    if t.len() >= 4 {
        assert(t.drop_last().last() == t[t.len() - 2]);
    }
}

/// Law: each transport that lsblk reports (`nvme`, `sata`, `sas`, `usb`,
/// `mmc`, `fc`, `iscsi`, `fcoe`, `rbd`, `nbd`) is read as the row's
/// transport: a row `NAME [MODEL...] SIZE disk TRAN RM` gives the disk
/// `NAME` of that size, that transport and that removable flag.
pub proof fn lemma_transport_read(line: Seq<char>)
    ensures
        ({
            let w = words(line);
            let n = w.len();
            let t = if n >= 2 {
                w[n - 2]
            } else {
                Seq::empty()
            };
            n >= 5 && w[n - 3] == "disk"@ && (t == "nvme"@ || t == "sata"@ || t == "sas"@ || t
                == "usb"@ || t == "mmc"@ || t == "fc"@ || t == "iscsi"@ || t == "fcoe"@ || t
                == "rbd"@ || t == "nbd"@) ==> (storage_of_line(line) matches Some(d) && d.name
                == w[0] && d.size_bytes == parse_u64(w[n - 4]) && d.device_type == "disk"@
                && d.transport == Some(t) && d.removable == removable_of(w[n - 1]))
        }),
{
    let w = words(line);
    let n = w.len();
    if n >= 5 {
        let t1 = w.drop_last();
        assert(t1.last() == w[n - 2]);
        assert(t1.drop_last().last() == w[n - 3]);
        assert(t1.drop_last().drop_last().last() == w[n - 4]);
        assert(t1.drop_last().drop_last().drop_last()[0] == w[0]);
    }
}

/// Law: the storage section holds whole disks only, and a model or
/// transport that lsblk leaves blank is absent, never empty.
pub proof fn lemma_storage_disks(text: Seq<char>)
    ensures
        forall|i: int|
            0 <= i < storage_of(text).len() ==> (#[trigger] storage_of(text)[i]).device_type
                == "disk"@ && null_or_filled(storage_of(text)[i].model) && null_or_filled(
                storage_of(text)[i].transport,
            ),
{
    let f = |l: Seq<char>| storage_of_line(l);
    assert forall|i: int| 0 <= i < storage_of(text).len() implies (#[trigger] storage_of(
        text,
    )[i]).device_type == "disk"@ && null_or_filled(storage_of(text)[i].model) && null_or_filled(
        storage_of(text)[i].transport,
    ) by {
        let d = storage_of(text)[i];
        assert(lines(text).filter_map(f).contains(d));
        lines(text).lemma_filter_map_contains(f, d);
        let l = choose|l: Seq<char>| #[trigger] lines(text).contains(l) && f(l) == Some(d);
        lemma_storage_line(l);
    }
}

fn is_transport_exec(t: &Vec<char>) -> (b: bool)
    ensures
        b == is_transport(t@),
{
    eq_str(t, "nvme") || eq_str(t, "sata") || eq_str(t, "sas") || eq_str(t, "usb") || eq_str(
        t,
        "mmc",
    ) || eq_str(t, "fc") || eq_str(t, "iscsi") || eq_str(t, "fcoe") || eq_str(t, "rbd")
        || eq_str(t, "nbd")
}

fn storage_from_line(line: &Vec<char>) -> (r: Option<StorageDevice>)
    ensures
        r.deep_view() == storage_of_line(line@),
{
    let mut tokens = words_of(line);
    let ghost t = tokens.deep_view();
    if tokens.len() < 4 {
        return None;
    }
    let rm = tokens.pop().unwrap();
    proof {
        lemma_chars_deep(rm);
    }
    let removable = if eq_str(&rm, "0") {
        Some(false)
    } else if eq_str(&rm, "1") {
        Some(true)
    } else {
        None
    };
    assert(tokens.deep_view() =~= t.drop_last());
    let ghost t1 = tokens.deep_view();
    let n1 = tokens.len();
    proof {
        lemma_chars_deep(tokens@[n1 - 1]);
    }
    let has_tran = is_transport_exec(&tokens[n1 - 1]);
    let transport = if has_tran {
        let tran = tokens.pop().unwrap();
        assert(tokens.deep_view() =~= t1.drop_last());
        Some(string_of(&tran))
    } else {
        None
    };
    let device_type = tokens.pop().unwrap();
    proof {
        lemma_chars_deep(device_type);
    }
    let ghost t2 = if has_tran {
        t1.drop_last()
    } else {
        t1
    };
    assert(tokens.deep_view() =~= t2.drop_last());
    if !eq_str(&device_type, "disk") {
        return None;
    }
    let size = tokens.pop().unwrap();
    proof {
        lemma_chars_deep(size);
    }
    let ghost t3 = t2.drop_last();
    assert(tokens.deep_view() =~= t3.drop_last());
    let size_bytes = parse_u64_exec(&size);
    if tokens.len() == 0 {
        return None;
    }
    proof {
        lemma_chars_deep(tokens@[0]);
    }
    let name = string_of(&tokens[0]);
    let rest = tokens.split_off(1);
    let ghost t4 = t3.drop_last();
    assert(rest.deep_view() =~= t4.drop_first());
    let space = vec![' '];
    assert(space@ =~= seq![' ']);
    let joined = join_exec(&rest, &space);
    let model = trim_chars(&joined);
    let model = if model.len() > 0 {
        Some(string_of(&model))
    } else {
        None
    };
    Some(
        StorageDevice {
            name,
            model,
            size_bytes,
            device_type: string_of(&device_type),
            transport,
            removable,
        },
    )
}

/// Parse flat `lsblk -bno NAME,MODEL,SIZE,TYPE,TRAN,RM -l` rows, keeping
/// only whole disks. Columns are space-padded and MODEL and TRAN may be
/// empty, so rows are read right to left.
pub fn parse_storage(text: &str) -> (r: Vec<StorageDevice>)
    ensures
        r.deep_view() == storage_of(text@),
{
    let t = chars_of(text);
    let ls = lines_of(&t);
    let ghost lv = lines(text@);
    let mut out: Vec<StorageDevice> = Vec::new();
    let mut i: usize = 0;
    while i < ls.len()
        invariant
            i <= ls@.len(),
            ls.deep_view() == lv,
            out.deep_view() == lv.take(i as int).filter_map(|l: Seq<char>| storage_of_line(l)),
        decreases ls@.len() - i,
    {
        let line = &ls[i];
        proof {
            lemma_chars_deep(*line);
            lv.lemma_filter_map_take_succ(|l: Seq<char>| storage_of_line(l), i as int);
        }
        assert(line@ == lv[i as int]);
        let ghost before = out.deep_view();
        match storage_from_line(line) {
            Some(dev) => {
                out.push(dev);
                assert(out.deep_view() =~= before + seq![storage_of_line(line@).unwrap()]);
            },
            None => {},
        }
        i += 1;
    }
    assert(lv.take(i as int) =~= lv);
    out
}

/// Disks from the output of `COMMAND`; a failure is recorded in `errors`
/// under `lsblk`.
pub fn probe(output: Option<Result<String, ShellError>>, errors: &mut Vec<ProbeError>) -> (r: Vec<
    StorageDevice,
>)
    ensures
        match output {
            None => r@.len() == 0 && final(errors)@ == old(errors)@,
            Some(Ok(text)) => r.deep_view() == storage_of(text@) && final(errors)@ == old(
                errors,
            )@,
            Some(Err(e)) => r@.len() == 0 && final(errors).deep_view() == old(
                errors,
            ).deep_view().push(probe_error_view("lsblk"@, e)),
        },
{
    match output {
        None => Vec::new(),
        Some(Ok(text)) => parse_storage(text.as_str()),
        Some(Err(e)) => {
            record_error(errors, "lsblk", &e);
            Vec::new()
        },
    }
}

} // verus!
