//! Self-update decisions: which release target this platform is, whether
//! a release is newer, which asset to download, and what to report. The
//! download itself and the replacement of the binary are left to the
//! caller.

use vstd::prelude::*;

use crate::number::{
    decimal, is_digit, lemma_decimal_digits, lemma_parse_decimal, parse_u64, parse_u64_exec,
};
use crate::shell::{quote, quoted};
use crate::text::{
    append_str, chars_of, copy_range, eq_str, lemma_chars_deep, lemma_split_on_len, split_chars, split_on, str_gt,
    starts_with_exec, string_of, strip_prefix,
};

verus! {

/// The release target of the platform named by `os` and `arch` (the values
/// of `std::env::consts::OS` and `ARCH`); `None` for a platform without
/// release builds.
pub open spec fn target_of(os: Seq<char>, arch: Seq<char>) -> Option<Seq<char>> {
    if os == "linux"@ && arch == "x86_64"@ {
        Some("x86_64-unknown-linux-gnu"@)
    } else if os == "linux"@ && arch == "aarch64"@ {
        Some("aarch64-unknown-linux-gnu"@)
    } else if os == "macos"@ && arch == "x86_64"@ {
        Some("x86_64-apple-darwin"@)
    } else if os == "macos"@ && arch == "aarch64"@ {
        Some("aarch64-apple-darwin"@)
    } else {
        None
    }
}

/// Map a platform to its Rust-style release target triple.
pub fn target_triple(os: &str, arch: &str) -> (r: Option<&'static str>)
    ensures
        match r {
            Some(t) => target_of(os@, arch@) == Some(t@),
            None => target_of(os@, arch@) is None,
        },
{
    let o = chars_of(os);
    let a = chars_of(arch);
    if eq_str(&o, "linux") && eq_str(&a, "x86_64") {
        Some("x86_64-unknown-linux-gnu")
    } else if eq_str(&o, "linux") && eq_str(&a, "aarch64") {
        Some("aarch64-unknown-linux-gnu")
    } else if eq_str(&o, "macos") && eq_str(&a, "x86_64") {
        Some("x86_64-apple-darwin")
    } else if eq_str(&o, "macos") && eq_str(&a, "aarch64") {
        Some("aarch64-apple-darwin")
    } else {
        None
    }
}

/// The release targets that builds are published for.
pub open spec fn known_target(t: Seq<char>) -> bool {
    ||| t == "x86_64-unknown-linux-gnu"@
    ||| t == "aarch64-unknown-linux-gnu"@
    ||| t == "x86_64-apple-darwin"@
    ||| t == "aarch64-apple-darwin"@
}

/// Law: the target of a platform is always one of the known release
/// targets.
pub proof fn lemma_target_known(os: Seq<char>, arch: Seq<char>)
    ensures
        target_of(os, arch) matches Some(t) ==> known_target(t),
{
}

// ------------------------------------------------------------- commands

/// The GitHub API endpoint of the latest release.
pub const RELEASE_URL: &'static str = "https://api.github.com/repos/eddraz/sonda/releases/latest";

/// The command that fetches the latest release's JSON.
pub fn release_command() -> (r: String)
    ensures
        r@ == "curl -fsSL "@ + quoted(RELEASE_URL@) + " -H "@ + quoted("User-Agent: sonda"@)
            + " -H "@ + quoted("Accept: application/vnd.github+json"@),
{
    let mut out: Vec<char> = Vec::new();
    append_str(&mut out, "curl -fsSL ");
    append_str(&mut out, quote(RELEASE_URL).as_str());
    append_str(&mut out, " -H ");
    append_str(&mut out, quote("User-Agent: sonda").as_str());
    append_str(&mut out, " -H ");
    append_str(&mut out, quote("Accept: application/vnd.github+json").as_str());
    string_of(&out)
}

/// The command that downloads `url` to the file `archive`.
pub fn download_command(archive: &str, url: &str) -> (r: String)
    ensures
        r@ == "curl -fsSL -o "@ + quoted(archive@) + " "@ + quoted(url@),
{
    let mut out: Vec<char> = Vec::new();
    append_str(&mut out, "curl -fsSL -o ");
    append_str(&mut out, quote(archive).as_str());
    append_str(&mut out, " ");
    append_str(&mut out, quote(url).as_str());
    string_of(&out)
}

/// The command that unpacks the gzipped tarball `archive` into `dir`.
pub fn extract_command(archive: &str, dir: &str) -> (r: String)
    ensures
        r@ == "tar xzf "@ + quoted(archive@) + " -C "@ + quoted(dir@),
{
    let mut out: Vec<char> = Vec::new();
    append_str(&mut out, "tar xzf ");
    append_str(&mut out, quote(archive).as_str());
    append_str(&mut out, " -C ");
    append_str(&mut out, quote(dir).as_str());
    string_of(&out)
}

// ------------------------------------------------------------------ versions

/// Segment `i` of a dot-separated version, `0` past its end.
pub open spec fn segment(parts: Seq<Seq<char>>, i: int) -> Seq<char> {
    if 0 <= i < parts.len() {
        parts[i]
    } else {
        "0"@
    }
}

pub open spec fn max_len(a: Seq<Seq<char>>, b: Seq<Seq<char>>) -> int {
    if a.len() >= b.len() {
        a.len() as int
    } else {
        b.len() as int
    }
}

/// The comparison from segment `i` on: the first segment pair that differs
/// decides, as numbers when both read as `u64`, else as strings.
pub open spec fn newer_from(ls: Seq<Seq<char>>, cs: Seq<Seq<char>>, i: int) -> bool
    decreases max_len(ls, cs) - i,
{
    if i < 0 || i >= max_len(ls, cs) {
        false
    } else {
        let l = segment(ls, i);
        let c = segment(cs, i);
        match (parse_u64(l), parse_u64(c)) {
            (Some(ln), Some(cn)) => if ln != cn {
                ln > cn
            } else {
                newer_from(ls, cs, i + 1)
            },
            _ => if l != c {
                str_gt(l, c)
            } else {
                newer_from(ls, cs, i + 1)
            },
        }
    }
}

/// `latest` is a newer dot-separated version than `current`.
pub open spec fn newer(latest: Seq<char>, current: Seq<char>) -> bool {
    newer_from(split_on(latest, '.'), split_on(current, '.'), 0)
}

fn str_gt_exec(a: &Vec<char>, b: &Vec<char>) -> (r: bool)
    ensures
        r == str_gt(a@, b@),
{
    let mut i: usize = 0;
    assert(a@.skip(0) =~= a@);
    assert(b@.skip(0) =~= b@);
    while i < a.len()
        invariant
            i <= a@.len(),
            i <= b@.len(),
            str_gt(a@, b@) == str_gt(a@.skip(i as int), b@.skip(i as int)),
        decreases a@.len() - i,
    {
        if i == b.len() {
            return true;
        }
        assert(a@.skip(i as int)[0] == a@[i as int]);
        assert(b@.skip(i as int)[0] == b@[i as int]);
        if a[i] != b[i] {
            return a[i] > b[i];
        }
        assert(a@.skip(i as int).drop_first() =~= a@.skip(i as int + 1));
        assert(b@.skip(i as int).drop_first() =~= b@.skip(i as int + 1));
        i += 1;
    }
    false
}

/// Compare two dot-separated version strings.
///
/// Numeric segments are compared as numbers; others fall back to string
/// comparison. The shorter version is padded with zeros.
pub fn is_newer(latest: &str, current: &str) -> (r: bool)
    ensures
        r == newer(latest@, current@),
{
    let l = chars_of(latest);
    let c = chars_of(current);
    let ls = split_chars(&l, '.');
    let cs = split_chars(&c, '.');
    let ghost lv = ls.deep_view();
    let ghost cv = cs.deep_view();
    let n = if ls.len() >= cs.len() {
        ls.len()
    } else {
        cs.len()
    };
    let zero = chars_of("0");
    let mut i: usize = 0;
    while i < n
        invariant
            i <= n,
            n == max_len(lv, cv),
            lv == ls.deep_view(),
            cv == cs.deep_view(),
            zero@ == "0"@,
            newer(latest@, current@) == newer_from(lv, cv, i as int),
        decreases n - i,
    {
        let lp = if i < ls.len() {
            proof {
                lemma_chars_deep(ls@[i as int]);
            }
            &ls[i]
        } else {
            &zero
        };
        let cp = if i < cs.len() {
            proof {
                lemma_chars_deep(cs@[i as int]);
            }
            &cs[i]
        } else {
            &zero
        };
        assert(lp@ == segment(lv, i as int));
        assert(cp@ == segment(cv, i as int));
        match (parse_u64_exec(lp), parse_u64_exec(cp)) {
            (Some(ln), Some(cn)) => {
                if ln != cn {
                    return ln > cn;
                }
            },
            _ => {
                if !seq_eq(lp, cp) {
                    return str_gt_exec(lp, cp);
                }
            },
        }
        i += 1;
    }
    false
}

fn seq_eq(a: &Vec<char>, b: &Vec<char>) -> (r: bool)
    ensures
        r == (a@ == b@),
{
    if a.len() != b.len() {
        return false;
    }
    let mut i: usize = 0;
    while i < a.len()
        invariant
            a@.len() == b@.len(),
            i <= a@.len(),
            forall|k: int| 0 <= k < i ==> a@[k] == b@[k],
        decreases a@.len() - i,
    {
        if a[i] != b[i] {
            return false;
        }
        i += 1;
    }
    assert(a@ =~= b@);
    true
}

// ------------------------------------------------------------ version laws

proof fn lemma_str_gt_asymmetric(a: Seq<char>, b: Seq<char>)
    ensures
        str_gt(a, b) ==> !str_gt(b, a),
    decreases a.len(),
{
    if a.len() > 0 && b.len() > 0 && a[0] == b[0] {
        lemma_str_gt_asymmetric(a.drop_first(), b.drop_first());
    }
}

proof fn lemma_newer_from_same(ls: Seq<Seq<char>>, i: int)
    ensures
        !newer_from(ls, ls, i),
    decreases max_len(ls, ls) - i,
{
    if 0 <= i < max_len(ls, ls) {
        lemma_newer_from_same(ls, i + 1);
    }
}

proof fn lemma_newer_from_asymmetric(ls: Seq<Seq<char>>, cs: Seq<Seq<char>>, i: int)
    ensures
        newer_from(ls, cs, i) ==> !newer_from(cs, ls, i),
    decreases max_len(ls, cs) - i,
{
    if 0 <= i < max_len(ls, cs) {
        let l = segment(ls, i);
        let c = segment(cs, i);
        lemma_str_gt_asymmetric(l, c);
        lemma_newer_from_asymmetric(ls, cs, i + 1);
    }
}

/// Two comparisons agree from segment `i` on when their segments agree
/// everywhere (a missing segment reads as `0`).
proof fn lemma_newer_from_segments(
    ls1: Seq<Seq<char>>,
    cs1: Seq<Seq<char>>,
    ls2: Seq<Seq<char>>,
    cs2: Seq<Seq<char>>,
    i: int,
)
    requires
        0 <= i,
        forall|j: int| segment(ls1, j) == segment(ls2, j),
        forall|j: int| segment(cs1, j) == segment(cs2, j),
    ensures
        newer_from(ls1, cs1, i) == newer_from(ls2, cs2, i),
    decreases (if max_len(ls1, cs1) >= max_len(ls2, cs2) {
        max_len(ls1, cs1)
    } else {
        max_len(ls2, cs2)
    }) - i,
{
    let m1 = max_len(ls1, cs1);
    let m2 = max_len(ls2, cs2);
    if i < m1 || i < m2 {
        lemma_newer_from_segments(ls1, cs1, ls2, cs2, i + 1);
        let l = segment(ls1, i);
        let c = segment(cs1, i);
        assert(l == segment(ls2, i));
        assert(c == segment(cs2, i));
        if i >= m1 {
            assert(l == "0"@ && c == "0"@);
        }
        if i >= m2 {
            assert(l == "0"@ && c == "0"@);
        }
    }
}

proof fn lemma_split_zero_suffix(s: Seq<char>)
    ensures
        split_on(s + ".0"@, '.') == split_on(s, '.').push(seq!['0']),
{
    reveal_strlit(".0");
    let t = s + ".0"@;
    let u = s.push('.');
    assert(t.len() > 0 && t.last() == '0');
    assert(t.drop_last() =~= u);
    assert(u.last() == '.');
    assert(u.drop_last() =~= s);
    lemma_split_on_len(s, '.');
    let p = split_on(s, '.');
    assert(split_on(u, '.') == p.push(Seq::empty()));
    let q = p.push(Seq::<char>::empty());
    assert(split_on(t, '.') == q.update(q.len() - 1, q.last().push('0')));
    assert(Seq::<char>::empty().push('0') =~= seq!['0']);
    assert(q.update(q.len() - 1, q.last().push('0')) =~= p.push(seq!['0']));
}

proof fn lemma_segments_zero_suffix(ls: Seq<Seq<char>>)
    ensures
        forall|j: int| segment(ls.push(seq!['0']), j) == segment(ls, j),
{
    reveal_strlit("0");
    assert(seq!['0'] =~= "0"@);
}

/// A version never counts as newer than itself.
pub proof fn lemma_newer_irreflexive(version: Seq<char>)
    ensures
        !newer(version, version),
{
    lemma_newer_from_same(split_on(version, '.'), 0);
}

/// Of two versions at most one is newer than the other.
pub proof fn lemma_newer_asymmetric(a: Seq<char>, b: Seq<char>)
    ensures
        newer(a, b) ==> !newer(b, a),
{
    lemma_newer_from_asymmetric(split_on(a, '.'), split_on(b, '.'), 0);
}

/// The shorter version is padded with zeros: a trailing `.0` on either
/// side changes nothing.
pub proof fn lemma_newer_zero_padding(latest: Seq<char>, current: Seq<char>)
    ensures
        newer(latest + ".0"@, current) == newer(latest, current),
        newer(latest, current + ".0"@) == newer(latest, current),
{
    let ls = split_on(latest, '.');
    let cs = split_on(current, '.');
    lemma_split_zero_suffix(latest);
    lemma_split_zero_suffix(current);
    lemma_segments_zero_suffix(ls);
    lemma_segments_zero_suffix(cs);
    lemma_newer_from_segments(ls.push(seq!['0']), cs, ls, cs, 0);
    lemma_newer_from_segments(ls, cs.push(seq!['0']), ls, cs, 0);
}

proof fn lemma_split_without_sep(s: Seq<char>, sep: char)
    requires
        forall|i: int| 0 <= i < s.len() ==> s[i] != sep,
    ensures
        split_on(s, sep) == seq![s],
    decreases s.len(),
{
    if s.len() > 0 {
        lemma_split_without_sep(s.drop_last(), sep);
        assert(s.last() != sep);
        assert(s.drop_last().push(s.last()) =~= s);
        let p = split_on(s.drop_last(), sep);
        assert(p == seq![s.drop_last()]);
        assert(p.len() == 1 && p.last() == s.drop_last());
        assert(split_on(s, sep) == p.update(0, p.last().push(s.last())));
        assert(p.update(0, s) =~= seq![s]);
    } else {
        assert(s =~= Seq::<char>::empty());
    }
}

/// Plain release numbers compare as numbers: `10` is newer than `9`.
pub proof fn lemma_newer_numbers(a: u64, b: u64)
    ensures
        newer(decimal(a as nat), decimal(b as nat)) == (a > b),
{
    let da = decimal(a as nat);
    let db = decimal(b as nat);
    lemma_parse_decimal(a);
    lemma_parse_decimal(b);
    lemma_decimal_digits(a as nat);
    lemma_decimal_digits(b as nat);
    assert(forall|i: int| 0 <= i < da.len() ==> is_digit(#[trigger] da[i]));
    assert(forall|i: int| 0 <= i < db.len() ==> is_digit(#[trigger] db[i]));
    lemma_split_without_sep(da, '.');
    lemma_split_without_sep(db, '.');
    assert(segment(seq![da], 0) == da);
    assert(segment(seq![db], 0) == db);
    assert(max_len(seq![da], seq![db]) == 1);
    assert(!newer_from(seq![da], seq![db], 1));
}

proof fn lemma_split_append(s: Seq<char>, d: Seq<char>, sep: char)
    requires
        forall|i: int| 0 <= i < d.len() ==> d[i] != sep,
    ensures
        split_on(s.push(sep) + d, sep) == split_on(s, sep).push(d),
    decreases d.len(),
{
    lemma_split_on_len(s, sep);
    let t = s.push(sep) + d;
    if d.len() == 0 {
        assert(t =~= s.push(sep));
        assert(s.push(sep).drop_last() =~= s);
        assert(d =~= Seq::<char>::empty());
    } else {
        let d0 = d.drop_last();
        lemma_split_append(s, d0, sep);
        assert(t.drop_last() =~= s.push(sep) + d0);
        assert(t.last() == d.last());
        let p = split_on(s, sep).push(d0);
        assert(split_on(t, sep) == p.update(p.len() - 1, p.last().push(d.last())));
        assert(d0.push(d.last()) =~= d);
        assert(p.update(p.len() - 1, d) =~= split_on(s, sep).push(d));
    }
}

proof fn lemma_newer_from_last_segment(ps: Seq<Seq<char>>, a: u64, b: u64, i: int)
    requires
        0 <= i <= ps.len(),
    ensures
        newer_from(ps.push(decimal(a as nat)), ps.push(decimal(b as nat)), i) == (a > b),
    decreases ps.len() + 1 - i,
{
    let ls = ps.push(decimal(a as nat));
    let cs = ps.push(decimal(b as nat));
    lemma_parse_decimal(a);
    lemma_parse_decimal(b);
    assert(max_len(ls, cs) == ps.len() + 1);
    if i < ps.len() {
        assert(segment(ls, i) == ps[i]);
        assert(segment(cs, i) == ps[i]);
        lemma_newer_from_last_segment(ps, a, b, i + 1);
    } else {
        assert(segment(ls, i) == decimal(a as nat));
        assert(segment(cs, i) == decimal(b as nat));
        if a == b {
            assert(!newer_from(ls, cs, i + 1));
        }
    }
}

/// Law: numeric segments compare as numbers wherever they stand: two
/// versions that agree up to a last segment, numbers `a` and `b`, are
/// ordered as `a` and `b` are (`0.1.10` is newer than `0.1.9`).
pub proof fn lemma_newer_numeric_segment(prefix: Seq<char>, a: u64, b: u64)
    ensures
        newer(prefix + seq!['.'] + decimal(a as nat), prefix + seq!['.'] + decimal(b as nat)) == (a
            > b),
{
    let da = decimal(a as nat);
    let db = decimal(b as nat);
    lemma_decimal_digits(a as nat);
    lemma_decimal_digits(b as nat);
    assert(forall|i: int| 0 <= i < da.len() ==> is_digit(#[trigger] da[i]));
    assert(forall|i: int| 0 <= i < db.len() ==> is_digit(#[trigger] db[i]));
    assert(prefix + seq!['.'] + da =~= prefix.push('.') + da);
    assert(prefix + seq!['.'] + db =~= prefix.push('.') + db);
    lemma_split_append(prefix, da, '.');
    lemma_split_append(prefix, db, '.');
    lemma_newer_from_last_segment(split_on(prefix, '.'), a, b, 0);
}

// ------------------------------------------------------------------ releases

/// `tag` without a leading `v`.
pub open spec fn strip_v_of(tag: Seq<char>) -> Seq<char> {
    match strip_prefix(tag, "v"@) {
        Some(rest) => rest,
        None => tag,
    }
}

/// Strip a leading 'v' from a tag name to get the plain version.
pub fn strip_v(tag: &str) -> (r: String)
    ensures
        r@ == strip_v_of(tag@),
{
    let t = chars_of(tag);
    let v = chars_of("v");
    proof {
        reveal_strlit("v");
    }
    if starts_with_exec(&t, &v) {
        let rest = copy_range(&t, 1, t.len());
        assert(rest@ =~= t@.skip(1));
        string_of(&rest)
    } else {
        tag.to_owned()
    }
}

/// One asset of a GitHub release; a field is `None` when the release JSON
/// lacks it or it is not a string.
#[derive(Debug, Clone, PartialEq)]
pub struct ReleaseAsset {
    pub name: Option<String>,
    pub browser_download_url: Option<String>,
}

pub struct ReleaseAssetView {
    pub name: Option<Seq<char>>,
    pub browser_download_url: Option<Seq<char>>,
}

impl DeepView for ReleaseAsset {
    type V = ReleaseAssetView;

    open spec fn deep_view(&self) -> ReleaseAssetView {
        ReleaseAssetView {
            name: self.name.deep_view(),
            browser_download_url: self.browser_download_url.deep_view(),
        }
    }
}

/// What the update logic reads of the latest-release JSON: `tag_name` (when
/// a string) and `assets` (when an array).
#[derive(Debug, Clone, PartialEq)]
pub struct Release {
    pub tag_name: Option<String>,
    pub assets: Option<Vec<ReleaseAsset>>,
}

pub struct ReleaseView {
    pub tag_name: Option<Seq<char>>,
    pub assets: Option<Seq<ReleaseAssetView>>,
}

impl DeepView for Release {
    type V = ReleaseView;

    open spec fn deep_view(&self) -> ReleaseView {
        ReleaseView { tag_name: self.tag_name.deep_view(), assets: self.assets.deep_view() }
    }
}

/// `sonda-<version>-<target>.tar.gz`.
pub open spec fn asset_file_name(version: Seq<char>, target: Seq<char>) -> Seq<char> {
    "sonda-"@ + version + "-"@ + target + ".tar.gz"@
}

/// The download URL of the first asset named `expected`, scanning in
/// order; `None` as soon as an asset has no name, when the matching asset
/// has no URL, or when none matches.
pub open spec fn url_from(assets: Seq<ReleaseAssetView>, expected: Seq<char>) -> Option<Seq<char>>
    decreases assets.len(),
{
    if assets.len() == 0 {
        None
    } else {
        match assets[0].name {
            None => None,
            Some(n) => if n == expected {
                assets[0].browser_download_url
            } else {
                url_from(assets.drop_first(), expected)
            },
        }
    }
}

/// The version (tag without `v`) and download URL of the asset for `target`.
pub open spec fn select_asset_of(release: ReleaseView, target: Seq<char>) -> Option<
    (Seq<char>, Seq<char>),
> {
    match release.tag_name {
        None => None,
        Some(tag) => {
            let version = strip_v_of(tag);
            match release.assets {
                None => None,
                Some(assets) => match url_from(assets, asset_file_name(version, target)) {
                    Some(url) => Some((version, url)),
                    None => None,
                },
            }
        },
    }
}

proof fn lemma_url_from_at(assets: Seq<ReleaseAssetView>, expected: Seq<char>, k: int)
    requires
        0 <= k < assets.len(),
        assets[k].name == Some(expected),
        forall|j: int| 0 <= j < k ==> (#[trigger] assets[j].name) is Some && assets[j].name != Some(
            expected,
        ),
    ensures
        url_from(assets, expected) == assets[k].browser_download_url,
    decreases k,
{
    if k > 0 {
        let rest = assets.drop_first();
        assert forall|j: int| 0 <= j < k - 1 implies (#[trigger] rest[j].name) is Some
            && rest[j].name != Some(expected) by {
            assert(rest[j] == assets[j + 1]);
        }
        assert(assets[0].name is Some);
        lemma_url_from_at(rest, expected, k - 1);
    }
}

proof fn lemma_url_from_found(assets: Seq<ReleaseAssetView>, expected: Seq<char>)
    ensures
        url_from(assets, expected) matches Some(u) ==> exists|k: int|
            0 <= k < assets.len() && (#[trigger] assets[k]).name == Some(expected)
                && assets[k].browser_download_url == Some(u),
    decreases assets.len(),
{
    if assets.len() > 0 {
        let rest = assets.drop_first();
        lemma_url_from_found(rest, expected);
        if let Some(u) = url_from(assets, expected) {
            if assets[0].name == Some(expected) {
                assert(assets[0].browser_download_url == Some(u));
            } else {
                let k = choose|k: int|
                    0 <= k < rest.len() && (#[trigger] rest[k]).name == Some(expected)
                        && rest[k].browser_download_url == Some(u);
                assert(assets[k + 1] == rest[k]);
            }
        }
    }
}

/// Law: the asset named for the version and target is found wherever it
/// stands in the list, when the assets before it are named otherwise; and
/// whatever is found is the URL of an asset with exactly that name.
pub proof fn lemma_select_asset_finds_match(release: ReleaseView, target: Seq<char>, k: int)
    ensures
        ({
            let version = strip_v_of(release.tag_name->0);
            let expected = asset_file_name(version, target);
            let assets = release.assets->0;
            release.tag_name is Some && release.assets is Some && 0 <= k < assets.len()
                && assets[k].name == Some(expected) && assets[k].browser_download_url is Some && (
            forall|j: int| 0 <= j < k ==> (#[trigger] assets[j].name) is Some && assets[j].name
                != Some(expected)) ==> select_asset_of(release, target) == Some(
                (version, assets[k].browser_download_url->0),
            )
        }),
        select_asset_of(release, target) matches Some((version, url)) ==> release.tag_name is Some
            && version == strip_v_of(release.tag_name->0) && release.assets is Some && exists|
            i: int|
            0 <= i < release.assets->0.len() && (#[trigger] release.assets->0[i]).name == Some(
                asset_file_name(version, target),
            ) && release.assets->0[i].browser_download_url == Some(url),
{
    if release.tag_name is Some && release.assets is Some {
        let version = strip_v_of(release.tag_name->0);
        let expected = asset_file_name(version, target);
        let assets = release.assets->0;
        lemma_url_from_found(assets, expected);
        if 0 <= k < assets.len() && assets[k].name == Some(expected) && (forall|j: int|
            0 <= j < k ==> (#[trigger] assets[j].name) is Some && assets[j].name != Some(expected)) {
            lemma_url_from_at(assets, expected, k);
        }
    }
}

/// Select the asset that matches `target`: `Some((version, url))` where
/// `version` is the tag without a leading `v`.
pub fn select_asset(release: &Release, target: &str) -> (r: Option<(String, String)>)
    ensures
        r.deep_view() == select_asset_of(release.deep_view(), target@),
{
    let tag = match &release.tag_name {
        None => {
            return None;
        },
        Some(t) => t,
    };
    let version = strip_v(tag.as_str());
    let mut expected: Vec<char> = Vec::new();
    append_str(&mut expected, "sonda-");
    append_str(&mut expected, version.as_str());
    append_str(&mut expected, "-");
    append_str(&mut expected, target);
    append_str(&mut expected, ".tar.gz");
    assert(expected@ =~= asset_file_name(version@, target@));
    let assets = match &release.assets {
        None => {
            return None;
        },
        Some(a) => a,
    };
    let ghost av = assets.deep_view();
    let mut i: usize = 0;
    assert(av.skip(0) =~= av);
    assert(release.deep_view().assets == Some(av));
    assert(release.deep_view().tag_name == Some(tag@));
    while i < assets.len()
        invariant
            i <= assets@.len(),
            av == assets.deep_view(),
            expected@ == asset_file_name(version@, target@),
            select_asset_of(release.deep_view(), target@) == match url_from(av, expected@) {
                Some(url) => Some((version@, url)),
                None => None,
            },
            url_from(av, expected@) == url_from(av.skip(i as int), expected@),
        decreases assets@.len() - i,
    {
        assert(av.skip(i as int)[0] == av[i as int]);
        assert(av.skip(i as int).drop_first() =~= av.skip(i as int + 1));
        let asset = &assets[i];
        let name = match &asset.name {
            None => {
                return None;
            },
            Some(n) => chars_of(n.as_str()),
        };
        if seq_eq(&name, &expected) {
            return match &asset.browser_download_url {
                Some(url) => Some((version, url.clone())),
                None => None,
            };
        }
        i += 1;
    }
    assert(av.skip(i as int) =~= Seq::<ReleaseAssetView>::empty());
    None
}

// -------------------------------------------------------------------- plans

/// What `sonda update` does next.
#[derive(Debug, Clone, PartialEq)]
pub enum UpdatePlan {
    /// The running version is not older: report "already up to date".
    UpToDate { latest_version: String },
    /// A newer release exists but has no asset for this target: report the
    /// error.
    MissingAsset { latest_version: String },
    /// Download `url` and replace the binary with release `version`.
    Download { version: String, url: String },
}

pub enum UpdatePlanView {
    UpToDate { latest_version: Seq<char> },
    MissingAsset { latest_version: Seq<char> },
    Download { version: Seq<char>, url: Seq<char> },
}

impl DeepView for UpdatePlan {
    type V = UpdatePlanView;

    open spec fn deep_view(&self) -> UpdatePlanView {
        match self {
            UpdatePlan::UpToDate { latest_version } => UpdatePlanView::UpToDate {
                latest_version: latest_version@,
            },
            UpdatePlan::MissingAsset { latest_version } => UpdatePlanView::MissingAsset {
                latest_version: latest_version@,
            },
            UpdatePlan::Download { version, url } => UpdatePlanView::Download {
                version: version@,
                url: url@,
            },
        }
    }
}

/// The latest version that a release names: its tag without `v`, or
/// `unknown`.
pub open spec fn latest_version_of(release: ReleaseView) -> Seq<char> {
    match release.tag_name {
        Some(tag) => strip_v_of(tag),
        None => "unknown"@,
    }
}

/// The decision of `sonda update` once the latest release is known.
pub open spec fn plan_of(current: Seq<char>, target: Seq<char>, release: ReleaseView) -> UpdatePlanView {
    let latest = latest_version_of(release);
    if !newer(latest, current) {
        UpdatePlanView::UpToDate { latest_version: latest }
    } else {
        match select_asset_of(release, target) {
            None => UpdatePlanView::MissingAsset { latest_version: latest },
            Some((version, url)) => UpdatePlanView::Download { version, url },
        }
    }
}

/// What `sonda update` does once the latest release of `target` is known,
/// the running version being `current`.
pub fn plan_update(current: &str, target: &str, release: &Release) -> (r: UpdatePlan)
    ensures
        r.deep_view() == plan_of(current@, target@, release.deep_view()),
{
    let latest = match &release.tag_name {
        Some(tag) => strip_v(tag.as_str()),
        None => "unknown".to_owned(),
    };
    if !is_newer(latest.as_str(), current) {
        return UpdatePlan::UpToDate { latest_version: latest };
    }
    match select_asset(release, target) {
        None => UpdatePlan::MissingAsset { latest_version: latest },
        Some((version, url)) => UpdatePlan::Download { version, url },
    }
}

/// `no release asset found for target <target>`.
pub fn missing_asset_message(target: &str) -> (r: String)
    ensures
        r@ == "no release asset found for target "@ + target@,
{
    let mut out: Vec<char> = Vec::new();
    append_str(&mut out, "no release asset found for target ");
    append_str(&mut out, target);
    string_of(&out)
}

/// The message when the binary at `path` cannot be replaced: a dedicated
/// one for a permission error, else the error's own text.
pub open spec fn replace_error_of(path: Seq<char>, permission_denied: bool, detail: Seq<char>) -> Seq<
    char,
> {
    if permission_denied {
        "cannot replace "@ + path
            + ": permission denied (try sudo or install to a writable location)"@
    } else {
        "cannot replace "@ + path + ": "@ + detail
    }
}

/// The message when the binary at `path` cannot be replaced.
pub fn map_replace_error(path: &str, permission_denied: bool, detail: &str) -> (r: String)
    ensures
        r@ == replace_error_of(path@, permission_denied, detail@),
{
    let mut out: Vec<char> = Vec::new();
    append_str(&mut out, "cannot replace ");
    append_str(&mut out, path);
    if permission_denied {
        append_str(&mut out, ": permission denied (try sudo or install to a writable location)");
    } else {
        append_str(&mut out, ": ");
        append_str(&mut out, detail);
    }
    string_of(&out)
}

} // verus!
