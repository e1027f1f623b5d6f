//! Network interfaces via `ip -br link`.

use vstd::prelude::*;

use crate::model::{NetworkLink, NetworkLinkView, ProbeError};
use crate::probe::{probe_error_view, record_error};
use crate::shell::ShellError;
use crate::text::{chars_of, lines, lines_of, string_of, words, words_of, lemma_chars_deep};

verus! {

/// The command this probe runs.
pub const COMMAND: &'static str = "LC_ALL=C ip -br link";

/// One brief row: its first two words are the name and the state.
pub open spec fn link_of_line(line: Seq<char>) -> Option<NetworkLinkView> {
    let w = words(line);
    if w.len() >= 2 {
        Some(NetworkLinkView { name: w[0], state: w[1] })
    } else {
        None
    }
}

pub open spec fn links_of(text: Seq<char>) -> Seq<NetworkLinkView> {
    lines(text).filter_map(|l: Seq<char>| link_of_line(l))
}

/// Parse brief rows: `wlo1 UP 86:f2:f5:9f:21:f1 <BROADCAST,MULTICAST,UP>`.
pub fn parse_links(text: &str) -> (r: Vec<NetworkLink>)
    ensures
        r.deep_view() == links_of(text@),
{
    let t = chars_of(text);
    let ls = lines_of(&t);
    let ghost lv = lines(text@);
    let mut out: Vec<NetworkLink> = Vec::new();
    let mut i: usize = 0;
    while i < ls.len()
        invariant
            i <= ls@.len(),
            ls.deep_view() == lv,
            out.deep_view() == lv.take(i as int).filter_map(|l: Seq<char>| link_of_line(l)),
        decreases ls@.len() - i,
    {
        let line = &ls[i];
        proof {
            lemma_chars_deep(*line);
            lv.lemma_filter_map_take_succ(|l: Seq<char>| link_of_line(l), i as int);
        }
        assert(line@ == lv[i as int]);
        let w = words_of(line);
        let ghost before = out.deep_view();
        if w.len() >= 2 {
            proof {
                lemma_chars_deep(w@[0]);
                lemma_chars_deep(w@[1]);
            }
            let link = NetworkLink { name: string_of(&w[0]), state: string_of(&w[1]) };
            out.push(link);
            assert(out.deep_view() =~= before + seq![link_of_line(line@).unwrap()]);
        }
        i += 1;
    }
    assert(lv.take(i as int) =~= lv);
    out
}

/// Network links from the output of `COMMAND`; a failure is recorded in
/// `errors` under `ip`.
pub fn probe(output: Option<Result<String, ShellError>>, errors: &mut Vec<ProbeError>) -> (r: Vec<
    NetworkLink,
>)
    ensures
        match output {
            None => r@.len() == 0 && final(errors)@ == old(errors)@,
            Some(Ok(text)) => r.deep_view() == links_of(text@) && final(errors)@ == old(errors)@,
            Some(Err(e)) => r@.len() == 0 && final(errors).deep_view() == old(
                errors,
            ).deep_view().push(probe_error_view("ip"@, e)),
        },
{
    match output {
        None => Vec::new(),
        Some(Ok(text)) => parse_links(text.as_str()),
        Some(Err(e)) => {
            record_error(errors, "ip", &e);
            Vec::new()
        },
    }
}

} // verus!
