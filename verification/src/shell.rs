//! What the library knows of the `bash -c` commands that the probes run:
//! how a failure reads, and how to quote an argument for bash. Running the
//! commands is left to the caller.

use vstd::prelude::*;

use crate::number::{push_signed, signed_decimal};
use crate::text::{append_chars, append_str, chars_of, string_of, trim, trim_chars};

verus! {

/// Failure of a `bash -c` invocation.
#[derive(Debug, Clone, PartialEq)]
pub struct ShellError {
    pub command: String,
    pub stderr: String,
    /// Exit code; `None` when bash could not be spawned.
    pub exit_code: Option<i32>,
}

/// The message of a failed command: `` `cmd` exited with N `` or
/// `` `cmd` failed to spawn ``, then `: stderr` when stderr holds more than
/// whitespace.
pub open spec fn shell_error_message(command: Seq<char>, stderr: Seq<char>, exit_code: Option<
    i32,
>) -> Seq<char> {
    let head = seq!['`'] + command + seq!['`'] + match exit_code {
        Some(code) => " exited with "@ + signed_decimal(code as int),
        None => " failed to spawn"@,
    };
    let detail = trim(stderr);
    if detail.len() == 0 {
        head
    } else {
        head + ": "@ + detail
    }
}

impl ShellError {
    pub open spec fn message_spec(&self) -> Seq<char> {
        shell_error_message(self.command@, self.stderr@, self.exit_code)
    }

    /// The human-readable message of this failure.
    pub fn message(&self) -> (r: String)
        ensures
            r@ == self.message_spec(),
    {
        let mut out: Vec<char> = Vec::new();
        out.push('`');
        append_str(&mut out, self.command.as_str());
        out.push('`');
        match self.exit_code {
            Some(code) => {
                append_str(&mut out, " exited with ");
                push_signed(&mut out, code as i64);
            },
            None => {
                append_str(&mut out, " failed to spawn");
            },
        }
        let stderr = chars_of(self.stderr.as_str());
        let detail = trim_chars(&stderr);
        if detail.len() > 0 {
            append_str(&mut out, ": ");
            append_chars(&mut out, &detail);
        }
        assert(out@ =~= self.message_spec());
        string_of(&out)
    }
}

/// `c` as it stands inside a single-quoted bash word: a quote closes the
/// word, is written escaped, and opens a new one.
pub open spec fn quote_char(c: char) -> Seq<char> {
    if c == '\'' {
        seq!['\'', '\\', '\'', '\'']
    } else {
        seq![c]
    }
}

pub open spec fn escape_quotes(s: Seq<char>) -> Seq<char>
    decreases s.len(),
{
    if s.len() == 0 {
        Seq::empty()
    } else {
        quote_char(s[0]) + escape_quotes(s.drop_first())
    }
}

/// `s` as one single-quoted bash word.
pub open spec fn quoted(s: Seq<char>) -> Seq<char> {
    seq!['\''] + escape_quotes(s) + seq!['\'']
}

proof fn lemma_escape_push(s: Seq<char>, c: char)
    ensures
        escape_quotes(s.push(c)) == escape_quotes(s) + quote_char(c),
    decreases s.len(),
{
    if s.len() == 0 {
        assert(s.push(c).drop_first() =~= Seq::<char>::empty());
        assert(escape_quotes(Seq::<char>::empty()) =~= Seq::<char>::empty());
        assert(s.push(c)[0] == c);
        assert(escape_quotes(s.push(c)) =~= quote_char(c));
    } else {
        assert(s.push(c).drop_first() =~= s.drop_first().push(c));
        lemma_escape_push(s.drop_first(), c);
        assert(escape_quotes(s.push(c)) =~= escape_quotes(s) + quote_char(c));
    }
}

/// A character that bash does not take literally outside quotes: a blank
/// ends the word, the others start an operator, an expansion, a pattern or
/// a comment.
pub open spec fn bash_special(c: char) -> bool {
    ||| c == ' ' || c == '\t' || c == '\n'
    ||| c == '|' || c == '&' || c == ';' || c == '(' || c == ')' || c == '<' || c == '>'
    ||| c == '$' || c == '`' || c == '"' || c == '*' || c == '?' || c == '['
    ||| c == '#' || c == '~' || c == '{' || c == '}' || c == '!'
}

/// The single word that bash reads from `s` (quote removal), reading
/// inside single quotes when `in_quote`; `None` when `s` is not one plain
/// word: a quote left open, a trailing backslash, or a special character
/// outside quotes.
pub open spec fn bash_word_from(s: Seq<char>, in_quote: bool) -> Option<Seq<char>>
    decreases s.len(),
{
    if s.len() == 0 {
        if in_quote {
            None
        } else {
            Some(Seq::empty())
        }
    } else {
        let c = s[0];
        let rest = s.drop_first();
        if in_quote {
            if c == '\'' {
                bash_word_from(rest, false)
            } else {
                prepend(seq![c], bash_word_from(rest, true))
            }
        } else if c == '\'' {
            bash_word_from(rest, true)
        } else if c == '\\' {
            if rest.len() == 0 {
                None
            } else {
                prepend(seq![rest[0]], bash_word_from(rest.drop_first(), false))
            }
        } else if bash_special(c) {
            None
        } else {
            prepend(seq![c], bash_word_from(rest, false))
        }
    }
}

pub open spec fn prepend(head: Seq<char>, tail: Option<Seq<char>>) -> Option<Seq<char>> {
    match tail {
        Some(t) => Some(head + t),
        None => None,
    }
}

/// The word bash reads from `s`.
pub open spec fn bash_word(s: Seq<char>) -> Option<Seq<char>> {
    bash_word_from(s, false)
}

proof fn lemma_read_escaped(v: Seq<char>, tail: Seq<char>)
    ensures
        bash_word_from(escape_quotes(v) + seq!['\''] + tail, true) == prepend(
            v,
            bash_word_from(tail, false),
        ),
    decreases v.len(),
{
    let x = bash_word_from(tail, false);
    let s = escape_quotes(v) + seq!['\''] + tail;
    if v.len() == 0 {
        assert(s =~= seq!['\''] + tail);
        assert(s.drop_first() =~= tail);
        match x {
            Some(t) => assert(v + t =~= t),
            None => {},
        }
    } else {
        let c = v[0];
        let r = v.drop_first();
        lemma_read_escaped(r, tail);
        let inner = escape_quotes(r) + seq!['\''] + tail;
        if c == '\'' {
            assert(s =~= seq!['\'', '\\', '\'', '\''] + inner);
            assert(s.drop_first() =~= seq!['\\', '\'', '\''] + inner);
            let s1 = s.drop_first();
            assert(s1.drop_first() =~= seq!['\'', '\''] + inner);
            assert(s1.drop_first()[0] == '\'');
            let s2 = s1.drop_first().drop_first();
            assert(s2 =~= seq!['\''] + inner);
            assert(s2.drop_first() =~= inner);
            assert(bash_word_from(s2, false) == bash_word_from(inner, true));
            assert(bash_word_from(s1, false) == prepend(seq!['\''], bash_word_from(s2, false)));
            assert(bash_word_from(s, true) == bash_word_from(s1, false));
        } else {
            assert(s =~= seq![c] + inner);
            assert(s.drop_first() =~= inner);
            assert(bash_word_from(s, true) == prepend(seq![c], bash_word_from(inner, true)));
        }
        match x {
            Some(t) => {
                assert(seq![c] + (r + t) =~= v + t);
            },
            None => {},
        }
    }
}

/// Law: bash reads a quoted value back as one word, the value itself,
/// whatever characters it holds.
pub proof fn lemma_quote_reads_back(value: Seq<char>)
    ensures
        bash_word(quoted(value)) == Some(value),
{
    let q = quoted(value);
    assert(q.drop_first() =~= escape_quotes(value) + seq!['\''] + Seq::<char>::empty());
    lemma_read_escaped(value, Seq::empty());
    assert(value + Seq::<char>::empty() =~= value);
}

/// Quote a string so bash treats it as a single argument.
pub fn quote(value: &str) -> (r: String)
    ensures
        r@ == quoted(value@),
{
    let v = chars_of(value);
    let mut out: Vec<char> = Vec::new();
    out.push('\'');
    let mut i: usize = 0;
    while i < v.len()
        invariant
            i <= v@.len(),
            out@ == seq!['\''] + escape_quotes(v@.take(i as int)),
        decreases v@.len() - i,
    {
        let c = v[i];
        proof {
            lemma_escape_push(v@.take(i as int), c);
            assert(v@.take(i as int + 1) =~= v@.take(i as int).push(c));
        }
        if c == '\'' {
            out.push('\'');
            out.push('\\');
            out.push('\'');
            out.push('\'');
        } else {
            out.push(c);
        }
        i += 1;
        assert(out@ =~= seq!['\''] + escape_quotes(v@.take(i as int)));
    }
    out.push('\'');
    assert(v@.take(i as int) =~= v@);
    assert(out@ =~= quoted(value@));
    string_of(&out)
}

} // verus!
