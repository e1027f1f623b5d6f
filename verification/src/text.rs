//! Text primitives over character sequences, each stated against the
//! behaviour of the corresponding `str` operation.

use vstd::prelude::*;

verus! {

/// Unicode `White_Space`, the set `char::is_whitespace` tests.
pub open spec fn is_ws(c: char) -> bool {
    let n = c as u32;
    ||| 9 <= n <= 13
    ||| n == 32
    ||| n == 0x85
    ||| n == 0xa0
    ||| n == 0x1680
    ||| 0x2000 <= n <= 0x200a
    ||| n == 0x2028
    ||| n == 0x2029
    ||| n == 0x202f
    ||| n == 0x205f
    ||| n == 0x3000
}

pub fn is_whitespace(c: char) -> (b: bool)
    ensures
        b == is_ws(c),
{
    let n = c as u32;
    (9 <= n && n <= 13) || n == 32 || n == 0x85 || n == 0xa0 || n == 0x1680 || (0x2000 <= n
        && n <= 0x200a) || n == 0x2028 || n == 0x2029 || n == 0x202f || n == 0x205f || n
        == 0x3000
}

/// The characters of `s`, in order (`str::chars`).
pub(crate) fn chars_of(s: &str) -> (v: Vec<char>)
    ensures
        v@ == s@,
{
    broadcast use vstd::string::axiom_spec_iter;

    let mut v: Vec<char> = Vec::new();
    for c in it: s.chars()
        invariant
            it.seq() == s@,
            v@ == it.seq().take(it.index() as int),
    {
        v.push(c);
        assert(v@ =~= it.seq().take(it.index() as int + 1));
    }
    assert(v@ =~= s@);
    v
}

/// The string made of the characters of `v` (`String: FromIterator<char>`).
#[verifier::external_body]
pub(crate) fn string_of(v: &[char]) -> (s: String)
    ensures
        s@ == v@,
{
    v.iter().collect()
}

/// `s` without leading whitespace (`str::trim_start`).
pub open spec fn trim_start(s: Seq<char>) -> Seq<char>
    decreases s.len(),
{
    if s.len() > 0 && is_ws(s[0]) {
        trim_start(s.drop_first())
    } else {
        s
    }
}

/// `s` without trailing whitespace (`str::trim_end`).
pub open spec fn trim_end(s: Seq<char>) -> Seq<char>
    decreases s.len(),
{
    if s.len() > 0 && is_ws(s.last()) {
        trim_end(s.drop_last())
    } else {
        s
    }
}

/// `s` without leading and trailing whitespace (`str::trim`).
pub open spec fn trim(s: Seq<char>) -> Seq<char> {
    trim_end(trim_start(s))
}

proof fn lemma_trim_start_skip(s: Seq<char>, i: int)
    requires
        0 <= i <= s.len(),
        forall|j: int| 0 <= j < i ==> is_ws(#[trigger] s[j]),
    ensures
        trim_start(s) == trim_start(s.skip(i)),
    decreases i,
{
    if i > 0 {
        assert(s.skip(1) == s.drop_first());
        assert forall|j: int| 0 <= j < i - 1 implies is_ws(#[trigger] s.skip(1)[j]) by {
            assert(s.skip(1)[j] == s[j + 1]);
        }
        lemma_trim_start_skip(s.skip(1), i - 1);
        assert(s.skip(1).skip(i - 1) == s.skip(i));
    } else {
        assert(s.skip(0) == s);
    }
}

proof fn lemma_trim_end_take(s: Seq<char>, k: int)
    requires
        0 <= k <= s.len(),
        forall|j: int| k <= j < s.len() ==> is_ws(#[trigger] s[j]),
    ensures
        trim_end(s) == trim_end(s.take(k)),
    decreases s.len() - k,
{
    if k < s.len() {
        assert(s.drop_last() == s.take(s.len() - 1));
        lemma_trim_end_take(s.drop_last(), k);
        assert(s.drop_last().take(k) == s.take(k));
    } else {
        assert(s.take(k) == s);
    }
}

proof fn lemma_trim_start_ends(s: Seq<char>)
    ensures
        trim_start(s).len() > 0 ==> !is_ws(trim_start(s)[0]),
        trim_start(s).len() > 0 ==> trim_start(s).last() == s.last(),
        (exists|i: int| 0 <= i < s.len() && !is_ws(s[i])) ==> trim_start(s).len() > 0,
    decreases s.len(),
{
    if s.len() > 0 && is_ws(s[0]) {
        lemma_trim_start_ends(s.drop_first());
        if exists|i: int| 0 <= i < s.len() && !is_ws(s[i]) {
            let i = choose|i: int| 0 <= i < s.len() && !is_ws(s[i]);
            assert(i > 0);
            assert(!is_ws(s.drop_first()[i - 1]));
        }
    }
}

proof fn lemma_trim_end_ends(s: Seq<char>)
    ensures
        trim_end(s).len() <= s.len(),
        forall|j: int| 0 <= j < trim_end(s).len() ==> trim_end(s)[j] == s[j],
        trim_end(s).len() > 0 ==> !is_ws(trim_end(s).last()),
        s.len() > 0 && !is_ws(s.last()) ==> trim_end(s) == s,
    decreases s.len(),
{
    if s.len() > 0 && is_ws(s.last()) {
        lemma_trim_end_ends(s.drop_last());
        assert forall|j: int| 0 <= j < trim_end(s).len() implies trim_end(s)[j] == s[j] by {
            assert(s.drop_last()[j] == s[j]);
        }
    }
}

/// What `trim` keeps: a non-empty result starts and ends with a
/// non-whitespace character, and a string with a non-whitespace character
/// trims to a non-empty one.
pub proof fn lemma_trim_ends(s: Seq<char>)
    ensures
        trim(s).len() > 0 ==> !is_ws(trim(s)[0]) && !is_ws(trim(s).last()),
        s.len() > 0 && !is_ws(s.last()) ==> trim(s).len() > 0,
{
    lemma_trim_start_ends(s);
    lemma_trim_end_ends(trim_start(s));
    let t = trim_start(s);
    if s.len() > 0 && !is_ws(s.last()) {
        assert(!is_ws(s[s.len() - 1]));
        assert(t.len() > 0);
        assert(!is_ws(t.last()));
    }
}

/// `a > b` for strings: lexicographic by character (`str`'s `Ord`).
pub open spec fn str_gt(a: Seq<char>, b: Seq<char>) -> bool
    decreases a.len(),
{
    if a.len() == 0 {
        false
    } else if b.len() == 0 {
        true
    } else if a[0] != b[0] {
        a[0] > b[0]
    } else {
        str_gt(a.drop_first(), b.drop_first())
    }
}

/// A common prefix does not decide the order.
pub proof fn lemma_str_gt_common_prefix(x: Seq<char>, a: Seq<char>, b: Seq<char>)
    ensures
        str_gt(x + a, x + b) == str_gt(a, b),
    decreases x.len(),
{
    if x.len() == 0 {
        assert(x + a =~= a);
        assert(x + b =~= b);
    } else {
        assert((x + a).drop_first() =~= x.drop_first() + a);
        assert((x + b).drop_first() =~= x.drop_first() + b);
        lemma_str_gt_common_prefix(x.drop_first(), a, b);
    }
}

/// Of strings of one length, the first decides the order of what they
/// begin.
pub proof fn lemma_str_gt_prefix_decides(a1: Seq<char>, a2: Seq<char>, b1: Seq<char>, b2: Seq<char>)
    requires
        a1.len() == a2.len(),
        str_gt(a1, a2),
    ensures
        str_gt(a1 + b1, a2 + b2),
    decreases a1.len(),
{
    if a1[0] == a2[0] {
        assert((a1 + b1).drop_first() =~= a1.drop_first() + b1);
        assert((a2 + b2).drop_first() =~= a2.drop_first() + b2);
        lemma_str_gt_prefix_decides(a1.drop_first(), a2.drop_first(), b1, b2);
    }
}

/// `s` with surrounding whitespace removed (`str::trim`).
pub fn trim_chars(s: &Vec<char>) -> (r: Vec<char>)
    ensures
        r@ == trim(s@),
{
    let n = s.len();
    let mut i: usize = 0;
    while i < n && is_whitespace(s[i])
        invariant
            i <= n == s@.len(),
            forall|j: int| 0 <= j < i ==> is_ws(#[trigger] s@[j]),
        decreases n - i,
    {
        i += 1;
    }
    proof {
        lemma_trim_start_skip(s@, i as int);
    }
    let ghost t = s@.skip(i as int);
    assert(i == n || !is_ws(t[0]));
    let mut k: usize = n;
    while k > i && is_whitespace(s[k - 1])
        invariant
            i <= k <= n == s@.len(),
            forall|j: int| k <= j < n ==> is_ws(#[trigger] s@[j]),
        decreases k,
    {
        k -= 1;
    }
    let mut r: Vec<char> = Vec::new();
    let mut j: usize = i;
    while j < k
        invariant
            i <= j <= k <= n == s@.len(),
            r@ == s@.subrange(i as int, j as int),
        decreases k - j,
    {
        r.push(s[j]);
        j += 1;
    }
    proof {
        let u = s@.skip(i as int);
        assert(trim_start(u) == u) by {
            if u.len() > 0 {
                assert(u[0] == s@[i as int]);
            }
        }
        assert forall|j: int| k - i <= j < u.len() implies is_ws(#[trigger] u[j]) by {
            assert(u[j] == s@[j + i]);
        }
        lemma_trim_end_take(u, k - i);
        assert(u.take(k - i) == r@);
        let w = r@;
        assert(trim_end(w) == w) by {
            if w.len() > 0 {
                assert(w.last() == s@[k - 1]);
            }
        }
    }
    r
}


/// The pieces of `s` between occurrences of `sep`, empty pieces included
/// (`str::split` with a `char` pattern).
pub open spec fn split_on(s: Seq<char>, sep: char) -> Seq<Seq<char>>
    decreases s.len(),
{
    if s.len() == 0 {
        seq![Seq::empty()]
    } else {
        let p = split_on(s.drop_last(), sep);
        if s.last() == sep {
            p.push(Seq::empty())
        } else {
            p.update(p.len() - 1, p.last().push(s.last()))
        }
    }
}

/// The pieces of `s` between whitespace characters, empty pieces included.
pub open spec fn split_ws(s: Seq<char>) -> Seq<Seq<char>>
    decreases s.len(),
{
    if s.len() == 0 {
        seq![Seq::empty()]
    } else {
        let p = split_ws(s.drop_last());
        if is_ws(s.last()) {
            p.push(Seq::empty())
        } else {
            p.update(p.len() - 1, p.last().push(s.last()))
        }
    }
}

pub open spec fn nonempty() -> spec_fn(Seq<char>) -> bool {
    |w: Seq<char>| w.len() > 0
}

/// The maximal runs of non-whitespace characters (`str::split_whitespace`).
pub open spec fn words(s: Seq<char>) -> Seq<Seq<char>> {
    split_ws(s).filter(nonempty())
}

/// A line without the carriage return of a `\r\n` ending.
pub open spec fn strip_cr(l: Seq<char>) -> Seq<char> {
    if l.len() > 0 && l.last() == '\r' {
        l.drop_last()
    } else {
        l
    }
}

/// The lines of `s` (`str::lines`): split at `\n`, a `\r` before a `\n`
/// dropped, and no line after a final `\n`.
pub open spec fn lines(s: Seq<char>) -> Seq<Seq<char>> {
    let p = split_on(s, '\n');
    let init = p.drop_last().map_values(|l: Seq<char>| strip_cr(l));
    if p.last().len() == 0 {
        init
    } else {
        init.push(p.last())
    }
}

/// The words of a text are never empty.
pub proof fn lemma_words_named(text: Seq<char>)
    ensures
        forall|i: int| 0 <= i < words(text).len() ==> (#[trigger] words(text)[i]).len() > 0,
{
    assert forall|i: int| 0 <= i < words(text).len() implies (#[trigger] words(text)[i]).len()
        > 0 by {
        split_ws(text).lemma_filter_pred(nonempty(), i);
    }
}

pub proof fn lemma_split_on_len(s: Seq<char>, sep: char)
    ensures
        split_on(s, sep).len() >= 1,
    decreases s.len(),
{
    if s.len() > 0 {
        lemma_split_on_len(s.drop_last(), sep);
    }
}

pub proof fn lemma_split_ws_len(s: Seq<char>)
    ensures
        split_ws(s).len() >= 1,
    decreases s.len(),
{
    if s.len() > 0 {
        lemma_split_ws_len(s.drop_last());
    }
}

proof fn lemma_deep_push(out: Vec<Vec<char>>, cur: Vec<char>, next: Vec<Vec<char>>)
    requires
        next@ == out@.push(cur),
    ensures
        next.deep_view() == out.deep_view().push(cur@),
{
    lemma_chars_deep(cur);
    assert(next.deep_view() =~= out.deep_view().push(cur@));
}

pub proof fn lemma_deep_view_push<T: DeepView>(before: Vec<T>, x: T, after: Vec<T>)
    requires
        after@ == before@.push(x),
    ensures
        after.deep_view() == before.deep_view().push(x.deep_view()),
{
    assert(after.deep_view() =~= before.deep_view().push(x.deep_view()));
}

pub proof fn lemma_deep_view_empty<T: DeepView>(v: Vec<T>)
    requires
        v@.len() == 0,
    ensures
        v.deep_view() == Seq::<T::V>::empty(),
{
    assert(v.deep_view() =~= Seq::<T::V>::empty());
}

pub proof fn lemma_chars_deep(v: Vec<char>)
    ensures
        v.deep_view() == v@,
{
    assert(v.deep_view() =~= v@);
}

/// The pieces of `s` between occurrences of `sep` (`str::split`).
pub fn split_chars(s: &Vec<char>, sep: char) -> (r: Vec<Vec<char>>)
    ensures
        r.deep_view() == split_on(s@, sep),
{
    let n = s.len();
    let mut out: Vec<Vec<char>> = Vec::new();
    let mut cur: Vec<char> = Vec::new();
    let mut i: usize = 0;
    assert(s@.take(0) =~= Seq::<char>::empty());
    assert(out.deep_view().push(cur@) =~= split_on(s@.take(0), sep));
    while i < n
        invariant
            i <= n == s@.len(),
            out.deep_view().push(cur@) == split_on(s@.take(i as int), sep),
        decreases n - i,
    {
        let c = s[i];
        let ghost t = s@.take(i as int + 1);
        assert(t.drop_last() =~= s@.take(i as int));
        assert(t.last() == c);
        proof {
            lemma_split_on_len(s@.take(i as int), sep);
        }
        if c == sep {
            let ghost old_out = out;
            out.push(cur);
            proof {
                lemma_deep_push(old_out, cur, out);
            }
            cur = Vec::new();
            assert(out.deep_view().push(cur@) =~= split_on(t, sep));
        } else {
            let ghost old_cur = cur@;
            cur.push(c);
            assert(out.deep_view().push(cur@) =~= split_on(t, sep));
        }
        i += 1;
    }
    assert(s@.take(n as int) =~= s@);
    let ghost old_out = out;
    out.push(cur);
    proof {
        lemma_deep_push(old_out, cur, out);
    }
    out
}

/// The whitespace-separated words of `s` (`str::split_whitespace`).
pub fn words_of(s: &Vec<char>) -> (r: Vec<Vec<char>>)
    ensures
        r.deep_view() == words(s@),
{
    broadcast use Seq::lemma_filter_push;

    let n = s.len();
    let mut out: Vec<Vec<char>> = Vec::new();
    let mut cur: Vec<char> = Vec::new();
    let ghost mut done: Seq<Seq<char>> = Seq::empty();
    let mut i: usize = 0;
    assert(s@.take(0) =~= Seq::<char>::empty());
    assert(done.push(cur@) =~= split_ws(s@.take(0)));
    proof {
        reveal(Seq::filter);
    }
    assert(out.deep_view() =~= done.filter(nonempty()));
    while i < n
        invariant
            i <= n == s@.len(),
            done.push(cur@) == split_ws(s@.take(i as int)),
            out.deep_view() == done.filter(nonempty()),
        decreases n - i,
    {
        let c = s[i];
        let ghost t = s@.take(i as int + 1);
        assert(t.drop_last() =~= s@.take(i as int));
        assert(t.last() == c);
        proof {
            lemma_split_ws_len(s@.take(i as int));
        }
        if is_whitespace(c) {
            if cur.len() > 0 {
                let ghost old_out = out;
                out.push(cur);
                proof {
                    lemma_deep_push(old_out, cur, out);
                }
            }
            proof {
                done.lemma_filter_push(cur@, nonempty());
                done = done.push(cur@);
            }
            cur = Vec::new();
            assert(done.push(cur@) =~= split_ws(t));
        } else {
            cur.push(c);
            assert(done.push(cur@) =~= split_ws(t));
        }
        i += 1;
    }
    assert(s@.take(n as int) =~= s@);
    proof {
        done.lemma_filter_push(cur@, nonempty());
    }
    if cur.len() > 0 {
        let ghost old_out = out;
        out.push(cur);
        proof {
            lemma_deep_push(old_out, cur, out);
        }
    }
    out
}

/// The lines of `s` (`str::lines`).
pub fn lines_of(s: &Vec<char>) -> (r: Vec<Vec<char>>)
    ensures
        r.deep_view() == lines(s@),
{
    let pieces = split_chars(s, '\n');
    let ghost p = split_on(s@, '\n');
    proof {
        lemma_split_on_len(s@, '\n');
    }
    let m = pieces.len();
    let mut out: Vec<Vec<char>> = Vec::new();
    let mut i: usize = 0;
    while i + 1 < m
        invariant
            1 <= m == p.len(),
            i + 1 <= m,
            pieces.deep_view() == p,
            out.deep_view() == p.take(i as int).map_values(|l: Seq<char>| strip_cr(l)),
        decreases m - i,
    {
        let piece = &pieces[i];
        assert(piece@ == p[i as int]);
        let k = piece.len();
        let mut line: Vec<char> = Vec::new();
        let end = if k > 0 && piece[k - 1] == '\r' { k - 1 } else { k };
        let mut j: usize = 0;
        while j < end
            invariant
                j <= end <= k == piece@.len(),
                line@ == piece@.take(j as int),
            decreases end - j,
        {
            line.push(piece[j]);
            j += 1;
        }
        assert(line@ =~= strip_cr(p[i as int]));
        let ghost old_out = out;
        out.push(line);
        proof {
            lemma_deep_push(old_out, line, out);
        }
        assert(p.take(i as int + 1) =~= p.take(i as int).push(p[i as int]));
        assert(out.deep_view() =~= p.take(i as int + 1).map_values(|l: Seq<char>| strip_cr(l)));
        i += 1;
    }
    assert(p.take(i as int) =~= p.drop_last());
    let last = &pieces[m - 1];
    assert(last@ == p.last());
    if last.len() > 0 {
        let mut copy: Vec<char> = Vec::new();
        let mut j: usize = 0;
        while j < last.len()
            invariant
                j <= last@.len(),
                copy@ == last@.take(j as int),
            decreases last@.len() - j,
        {
            copy.push(last[j]);
            j += 1;
        }
        assert(copy@ =~= last@);
        let ghost old_out = out;
        out.push(copy);
        proof {
            lemma_deep_push(old_out, copy, out);
        }
    }
    out
}


/// `p` occurs in `s` at position `i`.
pub open spec fn matches_at(s: Seq<char>, p: Seq<char>, i: int) -> bool {
    0 <= i && i + p.len() <= s.len() && s.subrange(i, i + p.len()) == p
}

/// The first position at or after `i` where `p` occurs in `s`.
pub open spec fn find_from(s: Seq<char>, p: Seq<char>, i: int) -> Option<int>
    decreases s.len() + 1 - i,
{
    if i < 0 || i + p.len() > s.len() {
        None
    } else if matches_at(s, p, i) {
        Some(i)
    } else {
        find_from(s, p, i + 1)
    }
}

/// The first position where `p` occurs in `s` (`str::find`).
pub open spec fn find(s: Seq<char>, p: Seq<char>) -> Option<int> {
    find_from(s, p, 0)
}

/// `s` split around the first occurrence of `p` (`str::split_once`).
pub open spec fn split_once(s: Seq<char>, p: Seq<char>) -> Option<(Seq<char>, Seq<char>)> {
    match find(s, p) {
        Some(i) => Some((s.take(i), s.skip(i + p.len()))),
        None => None,
    }
}

/// `s` without the prefix `p`, when it has it (`str::strip_prefix`).
pub open spec fn strip_prefix(s: Seq<char>, p: Seq<char>) -> Option<Seq<char>> {
    if p.is_prefix_of(s) {
        Some(s.skip(p.len() as int))
    } else {
        None
    }
}

pub proof fn lemma_find_from_bounds(s: Seq<char>, p: Seq<char>, i: int)
    ensures
        find_from(s, p, i) matches Some(k) ==> i <= k && matches_at(s, p, k) && forall|j: int|
            i <= j < k ==> !matches_at(s, p, j),
    decreases s.len() + 1 - i,
{
    if !(i < 0 || i + p.len() > s.len()) && !matches_at(s, p, i) {
        lemma_find_from_bounds(s, p, i + 1);
    }
}

/// `p` occurs at position `i` of `s`.
pub fn matches_at_exec(s: &Vec<char>, p: &Vec<char>, i: usize) -> (b: bool)
    ensures
        b == matches_at(s@, p@, i as int),
{
    if i > s.len() || p.len() > s.len() - i {
        return false;
    }
    let mut j: usize = 0;
    while j < p.len()
        invariant
            i + p@.len() <= s@.len() <= usize::MAX,
            j <= p@.len(),
            forall|k: int| 0 <= k < j ==> s@[i + k] == p@[k],
        decreases p@.len() - j,
    {
        if s[i + j] != p[j] {
            assert(s@.subrange(i as int, i + p@.len())[j as int] != p@[j as int]);
            return false;
        }
        j += 1;
    }
    assert(s@.subrange(i as int, i + p@.len()) =~= p@);
    true
}

/// The first position where `p` occurs in `s` (`str::find`).
pub fn find_exec(s: &Vec<char>, p: &Vec<char>) -> (r: Option<usize>)
    ensures
        r matches Some(k) ==> find(s@, p@) == Some(k as int),
        r is None ==> find(s@, p@) is None,
{
    if p.len() > s.len() {
        return None;
    }
    let last = s.len() - p.len();
    let mut i: usize = 0;
    loop
        invariant
            last + p@.len() == s@.len(),
            i <= last,
            find(s@, p@) == find_from(s@, p@, i as int),
        decreases last - i,
    {
        if matches_at_exec(s, p, i) {
            return Some(i);
        }
        if i == last {
            assert(find_from(s@, p@, i as int + 1) is None);
            return None;
        }
        i += 1;
    }
}

/// `v[from..to]` as a new vector.
pub fn copy_range(v: &Vec<char>, from: usize, to: usize) -> (r: Vec<char>)
    requires
        from <= to <= v@.len(),
    ensures
        r@ == v@.subrange(from as int, to as int),
{
    let mut r: Vec<char> = Vec::new();
    let mut j: usize = from;
    while j < to
        invariant
            from <= j <= to <= v@.len(),
            r@ == v@.subrange(from as int, j as int),
        decreases to - j,
    {
        r.push(v[j]);
        j += 1;
    }
    r
}

/// `s` split around the first occurrence of `p` (`str::split_once`).
pub fn split_once_exec(s: &Vec<char>, p: &Vec<char>) -> (r: Option<(Vec<char>, Vec<char>)>)
    ensures
        match r {
            Some((a, b)) => split_once(s@, p@) == Some((a@, b@)),
            None => split_once(s@, p@) is None,
        },
{
    match find_exec(s, p) {
        Some(i) => {
            proof {
                lemma_find_from_bounds(s@, p@, 0);
            }
            assert(matches_at(s@, p@, i as int));
            let plen = p.len();
            let slen = s.len();
            assert(i + plen <= slen);
            let a = copy_range(s, 0, i);
            let b = copy_range(s, i + plen, slen);
            assert(a@ =~= s@.take(i as int));
            assert(b@ =~= s@.skip(i + p@.len()));
            Some((a, b))
        },
        None => None,
    }
}

/// `p` is a prefix of `s` (`str::starts_with`).
pub fn starts_with_exec(s: &Vec<char>, p: &Vec<char>) -> (b: bool)
    ensures
        b == p@.is_prefix_of(s@),
{
    let b = matches_at_exec(s, p, 0);
    proof {
        if b {
            assert(s@.subrange(0, p@.len() as int) == s@.take(p@.len() as int));
        }
        if p@.is_prefix_of(s@) {
            assert(s@.subrange(0, p@.len() as int) =~= p@);
        }
    }
    b
}

/// `s` without the prefix `p`, when it has it (`str::strip_prefix`).
pub fn strip_prefix_exec(s: &Vec<char>, p: &Vec<char>) -> (r: Option<Vec<char>>)
    ensures
        r.deep_view() == strip_prefix(s@, p@),
{
    if starts_with_exec(s, p) {
        let rest = copy_range(s, p.len(), s.len());
        assert(rest@ =~= s@.skip(p@.len() as int));
        proof {
            lemma_chars_deep(rest);
        }
        Some(rest)
    } else {
        None
    }
}

/// The characters of `s` equal those of the string `t`.
pub fn eq_str(s: &Vec<char>, t: &str) -> (b: bool)
    ensures
        b == (s@ == t@),
{
    let u = chars_of(t);
    if s.len() != u.len() {
        return false;
    }
    let mut i: usize = 0;
    while i < s.len()
        invariant
            s@.len() == u@.len(),
            u@ == t@,
            i <= s@.len(),
            forall|k: int| 0 <= k < i ==> s@[k] == u@[k],
        decreases s@.len() - i,
    {
        if s[i] != u[i] {
            assert(s@[i as int] != t@[i as int]);
            return false;
        }
        i += 1;
    }
    assert(s@ =~= u@);
    true
}


/// `s` without leading copies of `c` (`str::trim_start_matches`).
pub open spec fn trim_start_char(s: Seq<char>, c: char) -> Seq<char>
    decreases s.len(),
{
    if s.len() > 0 && s[0] == c {
        trim_start_char(s.drop_first(), c)
    } else {
        s
    }
}

/// `s` without trailing copies of `c` (`str::trim_end_matches`).
pub open spec fn trim_end_char(s: Seq<char>, c: char) -> Seq<char>
    decreases s.len(),
{
    if s.len() > 0 && s.last() == c {
        trim_end_char(s.drop_last(), c)
    } else {
        s
    }
}

/// `s` without leading and trailing copies of `c` (`str::trim_matches`).
pub open spec fn trim_char(s: Seq<char>, c: char) -> Seq<char> {
    trim_end_char(trim_start_char(s, c), c)
}

proof fn lemma_trim_start_char_skip(s: Seq<char>, c: char, i: int)
    requires
        0 <= i <= s.len(),
        forall|j: int| 0 <= j < i ==> #[trigger] s[j] == c,
    ensures
        trim_start_char(s, c) == trim_start_char(s.skip(i), c),
    decreases i,
{
    if i > 0 {
        assert(s.skip(1) == s.drop_first());
        assert forall|j: int| 0 <= j < i - 1 implies #[trigger] s.skip(1)[j] == c by {
            assert(s.skip(1)[j] == s[j + 1]);
        }
        lemma_trim_start_char_skip(s.skip(1), c, i - 1);
        assert(s.skip(1).skip(i - 1) == s.skip(i));
    } else {
        assert(s.skip(0) == s);
    }
}

proof fn lemma_trim_end_char_take(s: Seq<char>, c: char, k: int)
    requires
        0 <= k <= s.len(),
        forall|j: int| k <= j < s.len() ==> #[trigger] s[j] == c,
    ensures
        trim_end_char(s, c) == trim_end_char(s.take(k), c),
    decreases s.len() - k,
{
    if k < s.len() {
        assert(s.drop_last() == s.take(s.len() - 1));
        lemma_trim_end_char_take(s.drop_last(), c, k);
        assert(s.drop_last().take(k) == s.take(k));
    } else {
        assert(s.take(k) == s);
    }
}

/// `s` without trailing copies of `c` (`str::trim_end_matches`).
pub fn trim_end_char_exec(s: &Vec<char>, c: char) -> (r: Vec<char>)
    ensures
        r@ == trim_end_char(s@, c),
{
    let n = s.len();
    let mut k: usize = n;
    while k > 0 && s[k - 1] == c
        invariant
            k <= n == s@.len(),
            forall|j: int| k <= j < n ==> #[trigger] s@[j] == c,
        decreases k,
    {
        k -= 1;
    }
    proof {
        lemma_trim_end_char_take(s@, c, k as int);
    }
    let r = copy_range(s, 0, k);
    assert(r@ =~= s@.take(k as int));
    r
}

/// `s` without leading and trailing copies of `c` (`str::trim_matches`).
pub fn trim_char_exec(s: &Vec<char>, c: char) -> (r: Vec<char>)
    ensures
        r@ == trim_char(s@, c),
{
    let n = s.len();
    let mut i: usize = 0;
    while i < n && s[i] == c
        invariant
            i <= n == s@.len(),
            forall|j: int| 0 <= j < i ==> #[trigger] s@[j] == c,
        decreases n - i,
    {
        i += 1;
    }
    proof {
        lemma_trim_start_char_skip(s@, c, i as int);
        let u = s@.skip(i as int);
        assert(trim_start_char(u, c) == u) by {
            if u.len() > 0 {
                assert(u[0] == s@[i as int]);
            }
        }
    }
    let rest = copy_range(s, i, n);
    assert(rest@ =~= s@.skip(i as int));
    trim_end_char_exec(&rest, c)
}

/// The parts joined with `sep` between consecutive ones (`[&str]::join`).
pub open spec fn join(parts: Seq<Seq<char>>, sep: Seq<char>) -> Seq<char>
    decreases parts.len(),
{
    if parts.len() == 0 {
        Seq::empty()
    } else if parts.len() == 1 {
        parts[0]
    } else {
        join(parts.drop_last(), sep) + sep + parts.last()
    }
}

/// Appends `v` to `out`.
pub fn append_chars(out: &mut Vec<char>, v: &Vec<char>)
    ensures
        final(out)@ == old(out)@ + v@,
{
    let mut j: usize = 0;
    while j < v.len()
        invariant
            j <= v@.len(),
            out@ == old(out)@ + v@.take(j as int),
        decreases v@.len() - j,
    {
        out.push(v[j]);
        j += 1;
        assert(out@ =~= old(out)@ + v@.take(j as int));
    }
    assert(v@.take(j as int) =~= v@);
}

/// Appends the characters of the string `t` to `out`.
pub fn append_str(out: &mut Vec<char>, t: &str)
    ensures
        final(out)@ == old(out)@ + t@,
{
    let v = chars_of(t);
    append_chars(out, &v);
}

/// The parts joined with `sep` between consecutive ones (`[&str]::join`).
pub fn join_exec(parts: &Vec<Vec<char>>, sep: &Vec<char>) -> (r: Vec<char>)
    ensures
        r@ == join(parts.deep_view(), sep@),
{
    let mut r: Vec<char> = Vec::new();
    let mut i: usize = 0;
    while i < parts.len()
        invariant
            i <= parts@.len(),
            r@ == join(parts.deep_view().take(i as int), sep@),
        decreases parts@.len() - i,
    {
        let ghost t = parts.deep_view().take(i as int + 1);
        assert(t.drop_last() =~= parts.deep_view().take(i as int));
        proof {
            lemma_chars_deep(parts@[i as int]);
        }
        assert(t.last() == parts@[i as int]@);
        if i > 0 {
            append_chars(&mut r, sep);
        } else {
            assert(t.len() == 1);
        }
        append_chars(&mut r, &parts[i]);
        assert(r@ =~= join(t, sep@));
        i += 1;
    }
    assert(parts.deep_view().take(i as int) =~= parts.deep_view());
    r
}

pub open spec fn lower_char(c: char) -> char {
    if 'A' <= c <= 'Z' {
        (c as int + 32) as char
    } else {
        c
    }
}

/// `s` with ASCII capitals made small (`str::to_ascii_lowercase`).
pub open spec fn ascii_lower(s: Seq<char>) -> Seq<char> {
    s.map_values(|c: char| lower_char(c))
}

/// `s` with ASCII capitals made small (`str::to_ascii_lowercase`).
pub fn ascii_lower_exec(s: &Vec<char>) -> (r: Vec<char>)
    ensures
        r@ == ascii_lower(s@),
{
    let mut r: Vec<char> = Vec::new();
    let mut i: usize = 0;
    while i < s.len()
        invariant
            i <= s@.len(),
            r@ == ascii_lower(s@.take(i as int)),
        decreases s@.len() - i,
    {
        let c = s[i];
        let l = if c >= 'A' && c <= 'Z' {
            ((c as u32 + 32) as u8) as char
        } else {
            c
        };
        r.push(l);
        i += 1;
        assert(r@ =~= ascii_lower(s@.take(i as int)));
    }
    assert(s@.take(i as int) =~= s@);
    r
}

/// `p` occurs in `s` (`str::contains`).
pub open spec fn contains(s: Seq<char>, p: Seq<char>) -> bool {
    find(s, p) is Some
}

/// `p` occurs in `s` (`str::contains`).
pub fn contains_exec(s: &Vec<char>, p: &str) -> (b: bool)
    ensures
        b == contains(s@, p@),
{
    let pv = chars_of(p);
    find_exec(s, &pv).is_some()
}

/// The string `t` occurs in `s`, each as a string.
pub fn str_contains(s: &str, p: &str) -> (b: bool)
    ensures
        b == contains(s@, p@),
{
    let sv = chars_of(s);
    contains_exec(&sv, p)
}

/// `s` starts with the string `p`.
pub fn str_starts_with(s: &str, p: &str) -> (b: bool)
    ensures
        b == p@.is_prefix_of(s@),
{
    let sv = chars_of(s);
    let pv = chars_of(p);
    starts_with_exec(&sv, &pv)
}


/// The line starts with a space or a tab (`str::starts_with([' ', '\t'])`).
pub open spec fn is_indented(line: Seq<char>) -> bool {
    line.len() > 0 && (line[0] == ' ' || line[0] == '\t')
}

pub fn is_indented_exec(line: &Vec<char>) -> (b: bool)
    ensures
        b == is_indented(line@),
{
    line.len() > 0 && (line[0] == ' ' || line[0] == '\t')
}


/// The first value that `f` gives along `s` (`Iterator::find_map`).
pub open spec fn first_some<A, B>(s: Seq<A>, f: spec_fn(A) -> Option<B>) -> Option<B>
    decreases s.len(),
{
    if s.len() == 0 {
        None
    } else {
        match f(s[0]) {
            Some(b) => Some(b),
            None => first_some(s.drop_first(), f),
        }
    }
}

pub proof fn lemma_first_some_skip<A, B>(s: Seq<A>, f: spec_fn(A) -> Option<B>, i: int)
    requires
        0 <= i < s.len(),
    ensures
        first_some(s.skip(i), f) == match f(s[i]) {
            Some(b) => Some(b),
            None => first_some(s.skip(i + 1), f),
        },
{
    assert(s.skip(i)[0] == s[i]);
    assert(s.skip(i).drop_first() =~= s.skip(i + 1));
}

/// The first value along `s` is the value at the first place that gives
/// one.
pub proof fn lemma_first_some_at<A, B>(s: Seq<A>, f: spec_fn(A) -> Option<B>, k: int)
    requires
        0 <= k < s.len(),
        f(s[k]) is Some,
        forall|j: int| 0 <= j < k ==> f(#[trigger] s[j]) is None,
    ensures
        first_some(s, f) == f(s[k]),
    decreases k,
{
    if k > 0 {
        let r = s.drop_first();
        assert forall|j: int| 0 <= j < k - 1 implies f(#[trigger] r[j]) is None by {
            assert(r[j] == s[j + 1]);
        }
        assert(f(s[0]) is None);
        assert(r[k - 1] == s[k]);
        lemma_first_some_at(r, f, k - 1);
    }
}

/// Where no place gives a value, there is no first one.
pub proof fn lemma_first_some_none<A, B>(s: Seq<A>, f: spec_fn(A) -> Option<B>)
    requires
        forall|j: int| 0 <= j < s.len() ==> f(#[trigger] s[j]) is None,
    ensures
        first_some(s, f) is None,
    decreases s.len(),
{
    if s.len() > 0 {
        let r = s.drop_first();
        assert forall|j: int| 0 <= j < r.len() implies f(#[trigger] r[j]) is None by {
            assert(r[j] == s[j + 1]);
        }
        assert(f(s[0]) is None);
        lemma_first_some_none(r, f);
    }
}

} // verus!
