//! Comparing release versions and choosing the desktop installer to download.

use vstd::prelude::*;
use vstd::string::*;
use crate::prerelease::{lemma_tag_order, lemma_tag_order_transitive, tag_order, tag_order_of};
use crate::numbers::{all_digits, decimal, digit_run, digit_run_of, digits_value, is_digit, lemma_decimal, lemma_digit_run, parse_digits};
use crate::text::{chars_of, opt_view, push_chars, push_str, string_of, contains, contains_of, ends_with, ends_with_of, is_text, lower, lower_of, find_char, is_ws, lemma_find_char, slice_of, split_once, split_once_of, strip_leading, strip_leading_of, trim, trim_end, trim_of, trim_start};

verus! {

// ---------------------------------------------------------------- versions

/// The value of the digit run that starts `part` (`parse_numeric_prefix`):
/// `None` when `part` does not start with a digit or the run exceeds `u64`.
pub open spec fn numeric_prefix(part: Seq<char>) -> Option<u64> {
    let digits = part.subrange(0, digit_run(part) as int);
    if digits.len() == 0 {
        None
    } else if digits_value(digits) <= u64::MAX {
        Some(digits_value(digits) as u64)
    } else {
        None
    }
}

/// The text of a version once trimmed and stripped of its leading `v`s, then `V`s.
pub open spec fn version_core(raw: Seq<char>) -> Seq<char> {
    strip_leading(strip_leading(trim(raw), 'v'), 'V')
}

/// `1.4.0`, `v1.4.0` or `1.4` read as a (major, minor, patch) triple; a missing
/// patch reads as 0 and each part may carry a non-numeric tail (`0-rc.1`).
pub open spec fn version_of(raw: Seq<char>) -> Option<(u64, u64, u64)> {
    let (p1, r1) = split_once(version_core(raw), '.');
    match r1 {
        None => None,
        Some(r1) => {
            let (p2, r2) = split_once(r1, '.');
            let p3 = match r2 {
                Some(r2) => split_once(r2, '.').0,
                None => seq!['0'],
            };
            match (numeric_prefix(p1), numeric_prefix(p2), numeric_prefix(p3)) {
                (Some(a), Some(b), Some(c)) => Some((a, b, c)),
                _ => None,
            }
        },
    }
}

/// Lexicographic order on version triples.
pub open spec fn triple_gt(a: (u64, u64, u64), b: (u64, u64, u64)) -> bool {
    ||| a.0 > b.0
    ||| a.0 == b.0 && a.1 > b.1
    ||| a.0 == b.0 && a.1 == b.1 && a.2 > b.2
}

/// What follows the minor number's `.` in a version (`0-rc.1` in `1.4.0-rc.1`);
/// `None` when the version has no third part.
pub open spec fn after_minor(raw: Seq<char>) -> Option<Seq<char>> {
    match split_once(version_core(raw), '.').1 {
        None => None,
        Some(r1) => split_once(r1, '.').1,
    }
}

/// The pre-release tag of a version: what follows a `-` right after the patch number,
/// up to any `+` build metadata (`rc.1` in `1.4.0-rc.1+b7`); `None` for a release.
pub open spec fn prerelease_tag(raw: Seq<char>) -> Option<Seq<char>> {
    match after_minor(raw) {
        Some(r2) => {
            let n = digit_run(r2) as int;
            if n < r2.len() && r2[n] == '-' {
                Some(split_once(r2.subrange(n + 1, r2.len() as int), '+').0)
            } else {
                None
            }
        },
        None => None,
    }
}

/// Between two versions with the same triple, the one with pre-release tag
/// `latest` ranks above the one with `current`: a release above any pre-release,
/// and pre-releases by semver precedence of their tags.
pub open spec fn prerelease_newer(latest: Option<Seq<char>>, current: Option<Seq<char>>) -> bool {
    match (latest, current) {
        (None, Some(_)) => true,
        (Some(l), Some(c)) => tag_order(l, c) > 0,
        _ => false,
    }
}

/// `latest` is a higher semver than `current`: it parses to a strictly higher
/// triple, or to the same triple with a higher pre-release rank.
pub open spec fn newer(latest: Seq<char>, current: Seq<char>) -> bool {
    match (version_of(latest), version_of(current)) {
        (Some(l), Some(c)) => triple_gt(l, c)
            || (l == c && prerelease_newer(prerelease_tag(latest), prerelease_tag(current))),
        _ => false,
    }
}

/// The pre-release tag of a version (`prerelease_tag`).
fn prerelease_tag_of(raw: &Vec<char>) -> (r: Option<Vec<char>>)
    ensures
        match r {
            Some(t) => prerelease_tag(raw@) == Some(t@),
            None => prerelease_tag(raw@) is None,
        },
{
    let t = trim_of(raw);
    let t = strip_leading_of(&t, 'v');
    let t = strip_leading_of(&t, 'V');
    let r1 = match split_once_of(&t, '.').1 {
        Some(r) => r,
        None => return None,
    };
    let r2 = match split_once_of(&r1, '.').1 {
        Some(r) => r,
        None => return None,
    };
    proof { lemma_digit_run(r2@); }
    let n = digit_run_of(&r2);
    if n < r2.len() && r2[n] == '-' {
        let rest = slice_of(&r2, n + 1, r2.len());
        Some(split_once_of(&rest, '+').0)
    } else {
        None
    }
}

fn parse_numeric_prefix(part: &Vec<char>) -> (r: Option<u64>)
    ensures
        r == numeric_prefix(part@),
{
    proof { lemma_digit_run(part@); }
    let k = digit_run_of(part);
    if k == 0 {
        return None;
    }
    let digits = slice_of(part, 0, k);
    parse_digits(&digits)
}

/// Reads a version as a triple once trimmed of a leading `v`/`V`.
pub fn parse_version_chars(raw: &Vec<char>) -> (r: Option<(u64, u64, u64)>)
    ensures
        r == version_of(raw@),
{
    let t = trim_of(raw);
    let t = strip_leading_of(&t, 'v');
    let t = strip_leading_of(&t, 'V');
    let (p1, r1) = split_once_of(&t, '.');
    let major = match parse_numeric_prefix(&p1) {
        Some(x) => x,
        None => return None,
    };
    let r1 = match r1 {
        Some(r) => r,
        None => return None,
    };
    let (p2, r2) = split_once_of(&r1, '.');
    let minor = match parse_numeric_prefix(&p2) {
        Some(x) => x,
        None => return None,
    };
    let p3 = match r2 {
        Some(r2) => split_once_of(&r2, '.').0,
        None => {
            let z = vec!['0'];
            assert(z@ =~= seq!['0']);
            z
        },
    };
    let patch = match parse_numeric_prefix(&p3) {
        Some(x) => x,
        None => return None,
    };
    Some((major, minor, patch))
}

/// Parse `1.4.0` / `v1.4.0` into comparable triples.
pub fn parse_version(raw: &str) -> (r: Option<(u64, u64, u64)>)
    ensures
        r == version_of(raw@),
{
    parse_version_chars(&chars_of(raw))
}

/// `a > b` on version triples.
fn triple_greater(a: (u64, u64, u64), b: (u64, u64, u64)) -> (r: bool)
    ensures
        r == triple_gt(a, b),
{
    a.0 > b.0 || (a.0 == b.0 && a.1 > b.1) || (a.0 == b.0 && a.1 == b.1 && a.2 > b.2)
}

/// `is_newer` on character texts.
pub fn is_newer_chars(latest: &Vec<char>, current: &Vec<char>) -> (r: bool)
    ensures
        r == newer(latest@, current@),
{
    match (parse_version_chars(latest), parse_version_chars(current)) {
        (Some(left), Some(right)) => {
            if triple_greater(left, right) {
                true
            } else if left.0 == right.0 && left.1 == right.1 && left.2 == right.2 {
                match (prerelease_tag_of(latest), prerelease_tag_of(current)) {
                    (None, Some(_)) => true,
                    (Some(l), Some(c)) => tag_order_of(&l, &c) > 0,
                    _ => false,
                }
            } else {
                false
            }
        },
        _ => false,
    }
}

/// True when `latest` is a higher semver than `current`.
pub fn is_newer(latest: &str, current: &str) -> (r: bool)
    ensures
        r == newer(latest@, current@),
{
    is_newer_chars(&chars_of(latest), &chars_of(current))
}

} // verus!

verus! {

// ---------------------------------------------------------------- laws of versions

/// `is_newer` is irreflexive: a version is never newer than itself.
pub proof fn law_newer_irreflexive(v: Seq<char>)
    ensures
        !newer(v, v),
{
    if let Some(t) = prerelease_tag(v) {
        lemma_tag_order(t, t);
    }
}

/// `is_newer` is asymmetric.
pub proof fn law_newer_asymmetric(a: Seq<char>, b: Seq<char>)
    requires
        newer(a, b),
    ensures
        !newer(b, a),
{
    if let (Some(x), Some(y)) = (prerelease_tag(a), prerelease_tag(b)) {
        lemma_tag_order(x, y);
    }
}

/// `is_newer` is transitive.
pub proof fn law_newer_transitive(a: Seq<char>, b: Seq<char>, c: Seq<char>)
    requires
        newer(a, b),
        newer(b, c),
    ensures
        newer(a, c),
{
    if let (Some(x), Some(y), Some(z)) = (prerelease_tag(a), prerelease_tag(b), prerelease_tag(c)) {
        if tag_order(x, y) > 0 && tag_order(y, z) > 0 {
            lemma_tag_order_transitive(x, y, z);
        }
    }
}

proof fn lemma_trim_end_after(c: char, s: Seq<char>)
    requires
        !is_ws(c),
    ensures
        trim_end(seq![c] + s) == seq![c] + trim_end(s),
    decreases s.len(),
{
    let cs = seq![c] + s;
    if s.len() > 0 && is_ws(s.last()) {
        assert(cs.last() == s.last());
        assert(cs.drop_last() =~= seq![c] + s.drop_last());
        lemma_trim_end_after(c, s.drop_last());
    } else {
        assert(cs.last() == if s.len() > 0 { s.last() } else { c });
    }
}

proof fn lemma_strip_leading_one(c: char, s: Seq<char>)
    ensures
        strip_leading(seq![c] + s, c) == strip_leading(s, c),
{
    assert((seq![c] + s).drop_first() =~= s);
}

/// A leading `v` does not change the version read from a text that does not start
/// with whitespace: `v1.4.0` and `1.4.0` are the same version.
pub proof fn law_leading_v_ignored(s: Seq<char>)
    requires
        s.len() == 0 || !is_ws(s[0]),
    ensures
        version_of(seq!['v'] + s) == version_of(s),
{
    let vs = seq!['v'] + s;
    assert(!is_ws('v'));
    assert(trim_start(vs) == vs);
    assert(trim_start(s) == s);
    lemma_trim_end_after('v', s);
    lemma_strip_leading_one('v', trim_end(s));
    assert(version_core(vs) == version_core(s));
}

proof fn lemma_digits_run_all(d: Seq<char>)
    requires
        all_digits(d),
    ensures
        digit_run(d) == d.len(),
    decreases d.len(),
{
    if d.len() > 0 {
        assert(is_digit(d[0]));
        assert(all_digits(d.drop_first())) by {
            assert forall|i: int| 0 <= i < d.drop_first().len() implies is_digit(#[trigger] d.drop_first()[i]) by {
                assert(d.drop_first()[i] == d[i + 1]);
            }
        }
        lemma_digits_run_all(d.drop_first());
    }
}

proof fn lemma_no_dot(d: Seq<char>)
    requires
        all_digits(d),
    ensures
        forall|j: int| 0 <= j < d.len() ==> d[j] != '.',
{
    assert forall|j: int| 0 <= j < d.len() implies d[j] != '.' by {
        assert(is_digit(d[j]));
    }
}

proof fn lemma_split_after_digits(d: Seq<char>, rest: Seq<char>)
    requires
        all_digits(d),
    ensures
        split_once(d + seq!['.'] + rest, '.') == (d, Some(rest)),
{
    let t = d + seq!['.'] + rest;
    lemma_no_dot(d);
    lemma_find_char(t, '.');
    assert(t[d.len() as int] == '.');
    match find_char(t, '.') {
        Some(i) => {
            if i < d.len() {
                assert(t[i] == d[i]);
            }
            assert(i == d.len());
            assert(t.subrange(0, i) =~= d);
            assert(t.subrange(i + 1, t.len() as int) =~= rest);
        },
        None => {},
    }
}

proof fn lemma_split_digits_alone(d: Seq<char>)
    requires
        all_digits(d),
    ensures
        split_once(d, '.') == (d, None::<Seq<char>>),
{
    lemma_no_dot(d);
    lemma_find_char(d, '.');
}

proof fn lemma_numeric_prefix_decimal(n: u64)
    ensures
        numeric_prefix(decimal(n as nat)) == Some(n),
{
    let d = decimal(n as nat);
    lemma_decimal(n as nat);
    lemma_digits_run_all(d);
    assert(d.subrange(0, d.len() as int) =~= d);
}

/// The decimal text `a.b.c` of a triple reads back as that triple.
pub proof fn law_version_round_trip(a: u64, b: u64, c: u64)
    ensures
        version_of(decimal(a as nat) + seq!['.'] + decimal(b as nat) + seq!['.'] + decimal(c as nat))
            == Some((a, b, c)),
{
    let da = decimal(a as nat);
    let db = decimal(b as nat);
    let dc = decimal(c as nat);
    lemma_decimal(a as nat);
    lemma_decimal(b as nat);
    lemma_decimal(c as nat);
    let rest = db + seq!['.'] + dc;
    let t = da + seq!['.'] + rest;
    assert(t =~= da + seq!['.'] + db + seq!['.'] + dc);
    assert(is_digit(t[0]));
    assert(t[0] == da[0]);
    assert(t.last() == dc.last());
    assert(is_digit(dc[dc.len() - 1]));
    assert(trim_start(t) == t);
    assert(trim_end(t) == t);
    assert(strip_leading(t, 'v') == t);
    assert(strip_leading(t, 'V') == t);
    assert(version_core(t) == t);
    lemma_split_after_digits(da, rest);
    lemma_split_after_digits(db, dc);
    lemma_split_digits_alone(dc);
    lemma_numeric_prefix_decimal(a);
    lemma_numeric_prefix_decimal(b);
    lemma_numeric_prefix_decimal(c);
}

/// Once trimmed and stripped of an optional `v` or `V`, a version text that starts
/// and ends with a digit is its own core.
proof fn lemma_version_core_decorated(w: Seq<char>, p: Seq<char>, t: Seq<char>)
    requires
        w == Seq::<char>::empty() || w == seq![' '],
        p == Seq::<char>::empty() || p == seq!['v'] || p == seq!['V'],
        t.len() > 0,
        is_digit(t[0]),
        is_digit(t.last()),
    ensures
        version_core(w + p + t + w) == t,
{
    let s = w + p + t + w;
    let pt = p + t;
    assert(is_ws(' '));
    assert(!is_ws(t[0]));
    assert(!is_ws(t.last()));
    if w.len() > 0 {
        assert(s.drop_first() =~= pt + w);
        assert(trim_start(s) == trim_start(pt + w));
    } else {
        assert(s =~= pt);
    }
    assert(pt[0] == if p.len() > 0 { p[0] } else { t[0] });
    assert(!is_ws(pt[0]));
    assert((pt + w)[0] == pt[0]);
    assert(trim_start(pt + w) == pt + w);
    assert(trim_start(s) == pt + w);
    if w.len() > 0 {
        assert((pt + w).drop_last() =~= pt);
    } else {
        assert(pt + w =~= pt);
    }
    assert(pt.last() == t.last());
    assert(trim_end(pt) == pt);
    assert(trim(s) == pt);
    if p == seq!['v'] {
        assert(pt.drop_first() =~= t);
        assert(strip_leading(pt, 'v') == strip_leading(t, 'v'));
    } else {
        assert(pt[0] != 'v');
    }
    assert(t[0] != 'v');
    assert(strip_leading(t, 'v') == t);
    assert(strip_leading(pt, 'v') == if p == seq!['v'] { t } else { pt });
    if p == seq!['V'] {
        assert(pt.drop_first() =~= t);
        assert(strip_leading(pt, 'V') == strip_leading(t, 'V'));
    } else if p.len() == 0 {
        assert(pt =~= t);
    }
    assert(t[0] != 'V');
    assert(strip_leading(t, 'V') == t);
}

/// `parse_version` reads `a.b.c` behind an optional `v` or `V`, and reads `a.b`
/// (with whitespace around it) as patch 0.
#[verifier::spinoff_prover]
#[verifier::rlimit(40)]
pub proof fn law_version_forms(p: Seq<char>, a: u64, b: u64, c: u64)
    requires
        p == Seq::<char>::empty() || p == seq!['v'] || p == seq!['V'],
    ensures
        version_of(p + decimal(a as nat) + seq!['.'] + decimal(b as nat) + seq!['.'] + decimal(c as nat))
            == Some((a, b, c)),
        version_of(seq![' '] + p + decimal(a as nat) + seq!['.'] + decimal(b as nat) + seq![' '])
            == Some((a, b, 0u64)),
{
    let da = decimal(a as nat);
    let db = decimal(b as nat);
    let dc = decimal(c as nat);
    lemma_decimal(a as nat);
    lemma_decimal(b as nat);
    lemma_decimal(c as nat);
    let e = Seq::<char>::empty();
    let t3 = da + seq!['.'] + db + seq!['.'] + dc;
    assert(t3[0] == da[0]);
    assert(t3.last() == dc.last());
    assert(is_digit(dc[dc.len() - 1]));
    lemma_version_core_decorated(e, p, t3);
    assert(e + p + t3 + e =~= p + da + seq!['.'] + db + seq!['.'] + dc);
    law_version_round_trip(a, b, c);
    lemma_version_core_decorated(e, e, t3);
    assert(e + e + t3 + e =~= t3);

    let t2 = da + seq!['.'] + db;
    assert(t2[0] == da[0]);
    assert(t2.last() == db.last());
    assert(is_digit(db[db.len() - 1]));
    let w = seq![' '];
    lemma_version_core_decorated(w, p, t2);
    assert(w + p + t2 + w =~= seq![' '] + p + da + seq!['.'] + db + seq![' ']);
    lemma_split_after_digits(da, db);
    lemma_split_digits_alone(db);
    lemma_numeric_prefix_decimal(a);
    lemma_numeric_prefix_decimal(b);
    assert(decimal(0nat) =~= seq!['0']);
    lemma_numeric_prefix_decimal(0);
}

/// A version prefix: nothing, `v` or `V`.
pub open spec fn version_prefix(p: Seq<char>) -> bool {
    p == Seq::<char>::empty() || p == seq!['v'] || p == seq!['V']
}

/// `[v|V]a.b` or `[v|V]a.b.c` in decimal, with nothing after the last number.
pub open spec fn plain_version(p: Seq<char>, a: u64, b: u64, c: Option<u64>) -> Seq<char> {
    let two = p + decimal(a as nat) + seq!['.'] + decimal(b as nat);
    match c {
        Some(c) => two + seq!['.'] + decimal(c as nat),
        None => two,
    }
}

/// The triple a plain version stands for: a missing patch is 0.
pub open spec fn plain_triple(a: u64, b: u64, c: Option<u64>) -> (u64, u64, u64) {
    match c {
        Some(c) => (a, b, c),
        None => (a, b, 0),
    }
}

#[verifier::spinoff_prover]
#[verifier::rlimit(40)]
proof fn lemma_plain_version(p: Seq<char>, a: u64, b: u64, c: Option<u64>)
    requires
        version_prefix(p),
    ensures
        version_of(plain_version(p, a, b, c)) == Some(plain_triple(a, b, c)),
        prerelease_tag(plain_version(p, a, b, c)) is None,
{
    let da = decimal(a as nat);
    let db = decimal(b as nat);
    lemma_decimal(a as nat);
    lemma_decimal(b as nat);
    let e = Seq::<char>::empty();
    lemma_numeric_prefix_decimal(a);
    lemma_numeric_prefix_decimal(b);
    match c {
        Some(c) => {
            let dc = decimal(c as nat);
            lemma_decimal(c as nat);
            law_version_forms(p, a, b, c);
            let t3 = da + seq!['.'] + db + seq!['.'] + dc;
            assert(t3[0] == da[0]);
            assert(t3.last() == dc.last());
            assert(is_digit(dc[dc.len() - 1]));
            lemma_version_core_decorated(e, p, t3);
            assert(e + p + t3 + e =~= plain_version(p, a, b, Some(c)));
            assert(t3 =~= da + seq!['.'] + (db + seq!['.'] + dc));
            lemma_split_after_digits(da, db + seq!['.'] + dc);
            lemma_split_after_digits(db, dc);
            lemma_split_digits_alone(dc);
            lemma_digits_run_all(dc);
        },
        None => {
            let t2 = da + seq!['.'] + db;
            assert(t2[0] == da[0]);
            assert(t2.last() == db.last());
            assert(is_digit(db[db.len() - 1]));
            lemma_version_core_decorated(e, p, t2);
            assert(e + p + t2 + e =~= plain_version(p, a, b, None::<u64>));
            lemma_split_after_digits(da, db);
            lemma_split_digits_alone(db);
            assert(decimal(0nat) =~= seq!['0']);
            lemma_numeric_prefix_decimal(0);
        },
    }
}

/// On plain versions (`[v|V]a.b[.c]`, no suffix) `is_newer` is the lexicographic
/// order of the number triples, a missing patch counting as 0: `1.10.0` is newer
/// than `1.9`.
pub proof fn law_newer_on_plain_versions(
    lp: Seq<char>,
    la: u64,
    lb: u64,
    lc: Option<u64>,
    cp: Seq<char>,
    ca: u64,
    cb: u64,
    cc: Option<u64>,
)
    requires
        version_prefix(lp),
        version_prefix(cp),
    ensures
        newer(plain_version(lp, la, lb, lc), plain_version(cp, ca, cb, cc))
            == triple_gt(plain_triple(la, lb, lc), plain_triple(ca, cb, cc)),
{
    lemma_plain_version(lp, la, lb, lc);
    lemma_plain_version(cp, ca, cb, cc);
}

} // verus!

verus! {

// ---------------------------------------------------------------- installer choice

/// One downloadable file of a GitHub release.
#[derive(Debug, Clone)]
pub struct GhAsset {
    pub name: String,
    pub browser_download_url: String,
    pub size: u64,
}

/// The fields of a GitHub release that the updater reads.
#[derive(Debug, Clone)]
pub struct GhRelease {
    pub tag_name: String,
    pub html_url: String,
    pub assets: Vec<GhAsset>,
}

/// The name carries an ARM architecture tag.
pub open spec fn arm_name(name: Seq<char>) -> bool {
    contains(name, "arm64"@) || contains(name, "aarch64"@)
}

/// The name carries a tag for `arch`.
pub open spec fn arch_matches(name: Seq<char>, arch: Seq<char>) -> bool {
    if arch == "x86_64"@ || arch == "amd64"@ {
        contains(name, "x64"@) || contains(name, "x86_64"@) || contains(name, "amd64"@)
    } else if arch == "aarch64"@ {
        arm_name(name)
    } else {
        false
    }
}

/// Files that are never installers: signatures, manifests, archives, debug builds.
pub open spec fn never_installer(name: Seq<char>) -> bool {
    ||| ends_with(name, ".blockmap"@)
    ||| ends_with(name, ".sig"@)
    ||| ends_with(name, ".json"@)
    ||| ends_with(name, ".zip"@)
    ||| ends_with(name, ".tar.gz"@)
    ||| contains(name, "debug"@)
}

pub open spec fn windows_score(name: Seq<char>, arch: Seq<char>) -> int {
    if !ends_with(name, ".exe"@) && !ends_with(name, ".msi"@) {
        0
    } else if arch == "x86_64"@ && arm_name(name) {
        0
    } else {
        10 + (if contains(name, "setup"@) { 20int } else { 0int }) + (if ends_with(name, ".exe"@) {
            8int
        } else {
            0int
        }) + (if arch_matches(name, arch) { 15int } else { 0int })
    }
}

pub open spec fn macos_score(name: Seq<char>, arch: Seq<char>) -> int {
    if !ends_with(name, ".dmg"@) {
        0
    } else {
        let base = 10 + (if contains(name, "universal"@) { 12int } else { 0int });
        if arch_matches(name, arch) {
            base + 18
        } else if arch == "x86_64"@ && arm_name(name) {
            0
        } else {
            base
        }
    }
}

pub open spec fn linux_score(name: Seq<char>, arch: Seq<char>) -> int {
    if !ends_with(name, ".deb"@) {
        0
    } else {
        10 + (if arch_matches(name, arch) { 15int } else { 0int })
    }
}

/// How well a (lower-case) asset name fits `os`/`arch`; 0 means unusable.
pub open spec fn score_of(name: Seq<char>, os: Seq<char>, arch: Seq<char>) -> int {
    if never_installer(name) {
        0
    } else if os == "windows"@ {
        windows_score(name, arch)
    } else if os == "macos"@ {
        macos_score(name, arch)
    } else if os == "linux"@ {
        linux_score(name, arch)
    } else {
        0
    }
}

/// The score of an asset, read from its lower-cased name.
pub open spec fn asset_fit(a: GhAsset, os: Seq<char>, arch: Seq<char>) -> int {
    score_of(lower(a.name@), os, arch)
}

/// The index that `pick_asset` chooses among the first `n` assets: the first one with
/// the highest positive score.
pub open spec fn best_among(assets: Seq<GhAsset>, os: Seq<char>, arch: Seq<char>, n: int) -> Option<int>
    decreases n,
{
    if n <= 0 {
        None
    } else {
        let prev = best_among(assets, os, arch, n - 1);
        let s = asset_fit(assets[n - 1], os, arch);
        if s <= 0 {
            prev
        } else {
            match prev {
                None => Some(n - 1),
                Some(k) => if s > asset_fit(assets[k], os, arch) {
                    Some(n - 1)
                } else {
                    Some(k)
                },
            }
        }
    }
}

/// The installer chosen among all `assets`.
pub open spec fn best_asset(assets: Seq<GhAsset>, os: Seq<char>, arch: Seq<char>) -> Option<int> {
    best_among(assets, os, arch, assets.len() as int)
}

/// What the choice is: none exactly when no asset scores above 0; otherwise the
/// earliest asset whose score is the highest.
pub proof fn lemma_best_among(assets: Seq<GhAsset>, os: Seq<char>, arch: Seq<char>, n: int)
    requires
        0 <= n <= assets.len(),
    ensures
        match best_among(assets, os, arch, n) {
            Some(k) => {
                &&& 0 <= k < n
                &&& asset_fit(assets[k], os, arch) > 0
                &&& forall|i: int| 0 <= i < n ==> asset_fit(#[trigger] assets[i], os, arch) <= asset_fit(assets[k], os, arch)
                &&& forall|i: int| 0 <= i < k ==> asset_fit(#[trigger] assets[i], os, arch) < asset_fit(assets[k], os, arch)
            },
            None => forall|i: int| 0 <= i < n ==> asset_fit(#[trigger] assets[i], os, arch) <= 0,
        },
    decreases n,
{
    if n > 0 {
        lemma_best_among(assets, os, arch, n - 1);
    }
}

/// The installer is the first asset with the highest positive score, and there is
/// none exactly when every asset scores 0 or less.
pub proof fn law_pick_asset_is_best(assets: Seq<GhAsset>, os: Seq<char>, arch: Seq<char>)
    ensures
        match best_asset(assets, os, arch) {
            Some(k) => {
                &&& 0 <= k < assets.len()
                &&& asset_fit(assets[k], os, arch) > 0
                &&& forall|i: int| 0 <= i < assets.len() ==> asset_fit(#[trigger] assets[i], os, arch) <= asset_fit(assets[k], os, arch)
                &&& forall|i: int| 0 <= i < k ==> asset_fit(#[trigger] assets[i], os, arch) < asset_fit(assets[k], os, arch)
            },
            None => forall|i: int| 0 <= i < assets.len() ==> asset_fit(#[trigger] assets[i], os, arch) <= 0,
        },
{
    lemma_best_among(assets, os, arch, assets.len() as int);
}

/// Signature files, manifests, archives and debug builds are never chosen.
pub proof fn law_never_pick_non_installer(assets: Seq<GhAsset>, os: Seq<char>, arch: Seq<char>)
    ensures
        best_asset(assets, os, arch) matches Some(k) ==> !never_installer(lower(assets[k].name@)),
{
    lemma_best_among(assets, os, arch, assets.len() as int);
}

proof fn lemma_suffix_differs(name: Seq<char>, a: Seq<char>, b: Seq<char>, k: int)
    requires
        ends_with(name, a),
        0 <= k < a.len(),
        k < b.len(),
        a[a.len() - 1 - k] != b[b.len() - 1 - k],
    ensures
        !ends_with(name, b),
{
    if ends_with(name, b) {
        assert(name.subrange(name.len() - a.len(), name.len() as int)[a.len() - 1 - k] == name[name.len() - 1 - k]);
        assert(name.subrange(name.len() - b.len(), name.len() as int)[b.len() - 1 - k] == name[name.len() - 1 - k]);
    }
}

/// On an Apple Silicon Mac (`macos`, `aarch64`), a disk image whose name is tagged
/// `aarch64` or `arm64` outranks any disk image with neither tag (an Intel `x64` or a
/// `universal` one), whatever their order: the untagged one is not chosen while the
/// tagged one is offered.
pub proof fn law_apple_silicon_prefers_arm_dmg(assets: Seq<GhAsset>, i: int, j: int)
    requires
        0 <= i < assets.len(),
        0 <= j < assets.len(),
        ends_with(lower(assets[i].name@), ".dmg"@),
        contains(lower(assets[i].name@), "aarch64"@) || contains(lower(assets[i].name@), "arm64"@),
        !contains(lower(assets[i].name@), "debug"@),
        ends_with(lower(assets[j].name@), ".dmg"@),
        !contains(lower(assets[j].name@), "aarch64"@),
        !contains(lower(assets[j].name@), "arm64"@),
    ensures
        asset_fit(assets[i], "macos"@, "aarch64"@) > asset_fit(assets[j], "macos"@, "aarch64"@),
        best_asset(assets, "macos"@, "aarch64"@) != Some(j),
{
    let a = lower(assets[i].name@);
    let os = "macos"@;
    let arch = "aarch64"@;
    reveal_strlit("macos");
    reveal_strlit("windows");
    reveal_strlit("linux");
    reveal_strlit("aarch64");
    reveal_strlit("x86_64");
    reveal_strlit("amd64");
    reveal_strlit(".dmg");
    reveal_strlit(".blockmap");
    reveal_strlit(".sig");
    reveal_strlit(".json");
    reveal_strlit(".zip");
    reveal_strlit(".tar.gz");
    assert(os.len() == 5 && "windows"@.len() == 7);
    assert(os != "windows"@);
    assert(arch.len() == 7 && "x86_64"@.len() == 6 && "amd64"@.len() == 5);
    assert(arch != "x86_64"@ && arch != "amd64"@);
    lemma_suffix_differs(a, ".dmg"@, ".blockmap"@, 0);
    lemma_suffix_differs(a, ".dmg"@, ".sig"@, 1);
    lemma_suffix_differs(a, ".dmg"@, ".json"@, 0);
    lemma_suffix_differs(a, ".dmg"@, ".zip"@, 0);
    lemma_suffix_differs(a, ".dmg"@, ".tar.gz"@, 0);
    assert(!never_installer(a));
    assert(arch_matches(a, arch));
    assert(macos_score(a, arch) >= 28);
    assert(score_of(a, os, arch) >= 28);
    assert(!arch_matches(lower(assets[j].name@), arch));
    assert(asset_fit(assets[j], os, arch) <= 22);
    law_pick_asset_is_best(assets, os, arch);
}

/// On an Intel Mac (`macos`, `x86_64`), a disk image tagged `x64` outranks any disk
/// image with no Intel tag, and one tagged only for ARM (`arm64`/`aarch64`, with no
/// `x64`, `x86_64` or `amd64`) is never chosen.
pub proof fn law_intel_mac_prefers_x64_dmg(assets: Seq<GhAsset>, i: int, j: int)
    requires
        0 <= i < assets.len(),
        0 <= j < assets.len(),
        ends_with(lower(assets[i].name@), ".dmg"@),
        contains(lower(assets[i].name@), "x64"@),
        !contains(lower(assets[i].name@), "debug"@),
        ends_with(lower(assets[j].name@), ".dmg"@),
        !contains(lower(assets[j].name@), "x64"@),
        !contains(lower(assets[j].name@), "x86_64"@),
        !contains(lower(assets[j].name@), "amd64"@),
    ensures
        asset_fit(assets[i], "macos"@, "x86_64"@) > asset_fit(assets[j], "macos"@, "x86_64"@),
        best_asset(assets, "macos"@, "x86_64"@) != Some(j),
        contains(lower(assets[j].name@), "arm64"@) || contains(lower(assets[j].name@), "aarch64"@)
            ==> asset_fit(assets[j], "macos"@, "x86_64"@) == 0,
{
    let a = lower(assets[i].name@);
    let os = "macos"@;
    let arch = "x86_64"@;
    reveal_strlit("macos");
    reveal_strlit("windows");
    reveal_strlit("x86_64");
    reveal_strlit(".dmg");
    reveal_strlit(".blockmap");
    reveal_strlit(".sig");
    reveal_strlit(".json");
    reveal_strlit(".zip");
    reveal_strlit(".tar.gz");
    assert(os.len() == 5 && "windows"@.len() == 7);
    assert(os != "windows"@);
    lemma_suffix_differs(a, ".dmg"@, ".blockmap"@, 0);
    lemma_suffix_differs(a, ".dmg"@, ".sig"@, 1);
    lemma_suffix_differs(a, ".dmg"@, ".json"@, 0);
    lemma_suffix_differs(a, ".dmg"@, ".zip"@, 0);
    lemma_suffix_differs(a, ".dmg"@, ".tar.gz"@, 0);
    assert(!never_installer(a));
    assert(arch_matches(a, arch));
    assert(score_of(a, os, arch) >= 28);
    assert(!arch_matches(lower(assets[j].name@), arch));
    assert(asset_fit(assets[j], os, arch) <= 22);
    law_pick_asset_is_best(assets, os, arch);
}

fn is_arm_name(name: &Vec<char>) -> (r: bool)
    ensures
        r == arm_name(name@),
{
    contains_of(name, &chars_of("arm64")) || contains_of(name, &chars_of("aarch64"))
}

fn matches_arch(name: &Vec<char>, arch: &Vec<char>) -> (r: bool)
    ensures
        r == arch_matches(name@, arch@),
{
    if is_text(arch, "x86_64") || is_text(arch, "amd64") {
        contains_of(name, &chars_of("x64")) || contains_of(name, &chars_of("x86_64"))
            || contains_of(name, &chars_of("amd64"))
    } else if is_text(arch, "aarch64") {
        is_arm_name(name)
    } else {
        false
    }
}

fn score_windows(name: &Vec<char>, arch: &Vec<char>) -> (r: i32)
    ensures
        r == windows_score(name@, arch@),
{
    if !ends_with_of(name, &chars_of(".exe")) && !ends_with_of(name, &chars_of(".msi")) {
        return 0;
    }
    if is_text(arch, "x86_64") && is_arm_name(name) {
        return 0;
    }
    let mut score: i32 = 10;
    if contains_of(name, &chars_of("setup")) {
        score += 20;
    }
    if ends_with_of(name, &chars_of(".exe")) {
        score += 8;
    }
    if matches_arch(name, arch) {
        score += 15;
    }
    score
}

fn score_macos(name: &Vec<char>, arch: &Vec<char>) -> (r: i32)
    ensures
        r == macos_score(name@, arch@),
{
    if !ends_with_of(name, &chars_of(".dmg")) {
        return 0;
    }
    let mut score: i32 = 10;
    if contains_of(name, &chars_of("universal")) {
        score += 12;
    }
    if matches_arch(name, arch) {
        score += 18;
    } else if is_text(arch, "x86_64") && is_arm_name(name) {
        return 0;
    }
    score
}

fn score_linux(name: &Vec<char>, arch: &Vec<char>) -> (r: i32)
    ensures
        r == linux_score(name@, arch@),
{
    if !ends_with_of(name, &chars_of(".deb")) {
        return 0;
    }
    let mut score: i32 = 10;
    if matches_arch(name, arch) {
        score += 15;
    }
    score
}

fn asset_score(name: &Vec<char>, os: &Vec<char>, arch: &Vec<char>) -> (r: i32)
    ensures
        r == score_of(name@, os@, arch@),
{
    if ends_with_of(name, &chars_of(".blockmap")) || ends_with_of(name, &chars_of(".sig"))
        || ends_with_of(name, &chars_of(".json")) || ends_with_of(name, &chars_of(".zip"))
        || ends_with_of(name, &chars_of(".tar.gz")) || contains_of(name, &chars_of("debug")) {
        return 0;
    }
    if is_text(os, "windows") {
        score_windows(name, arch)
    } else if is_text(os, "macos") {
        score_macos(name, arch)
    } else if is_text(os, "linux") {
        score_linux(name, arch)
    } else {
        0
    }
}

/// Index of the installer asset for `os`/`arch` (see `pick_asset`).
pub fn pick_asset_index(assets: &[GhAsset], os: &Vec<char>, arch: &Vec<char>) -> (r: Option<usize>)
    ensures
        match r {
            Some(k) => best_asset(assets@, os@, arch@) == Some(k as int),
            None => best_asset(assets@, os@, arch@) is None,
        },
{
    let mut best: Option<(usize, i32)> = None;
    let mut i: usize = 0;
    while i < assets.len()
        invariant
            i <= assets.len(),
            match best {
                Some((k, s)) => best_among(assets@, os@, arch@, i as int) == Some(k as int) && s
                    == asset_fit(assets@[k as int], os@, arch@),
                None => best_among(assets@, os@, arch@, i as int) is None,
            },
        decreases assets.len() - i,
    {
        let name = lower_of(&chars_of(assets[i].name.as_str()));
        let score = asset_score(&name, os, arch);
        if score > 0 {
            match best {
                None => {
                    best = Some((i, score));
                },
                Some((_, prev)) => {
                    if score > prev {
                        best = Some((i, score));
                    }
                },
            }
        }
        i += 1;
    }
    match best {
        Some((k, _)) => Some(k),
        None => None,
    }
}

/// Choose the installer GitHub asset for this OS/arch.
pub fn pick_asset<'a>(assets: &'a [GhAsset], os: &str, arch: &str) -> (r: Option<&'a GhAsset>)
    ensures
        match best_asset(assets@, os@, arch@) {
            Some(k) => r matches Some(a) && *a == assets@[k],
            None => r is None,
        },
{
    proof { lemma_best_among(assets@, os@, arch@, assets@.len() as int); }
    match pick_asset_index(assets, &chars_of(os), &chars_of(arch)) {
        Some(k) => Some(&assets[k]),
        None => None,
    }
}

} // verus!

verus! {

// ---------------------------------------------------------------- update status

/// Public repo that publishes desktop installers.
pub const UPDATE_REPO: &'static str = "Mouseww/deepseek-harness-app";

/// Phase of an in-app update.
#[derive(Debug, Clone, Copy, PartialEq, Eq, Structural)]
pub enum AppUpdateState {
    Idle,
    Checking,
    Available,
    Downloading,
    Installing,
    Error,
}

/// What the settings page shows about desktop updates.
#[derive(Debug, Clone)]
pub struct AppUpdateStatus {
    pub state: AppUpdateState,
    pub current: String,
    pub latest: Option<String>,
    pub notes_url: Option<String>,
    pub asset_name: Option<String>,
    pub bytes_downloaded: u64,
    pub bytes_total: Option<u64>,
    pub message: Option<String>,
    pub available: bool,
}

impl AppUpdateStatus {
    /// Idle status that knows only the running version `current`.
    pub fn current_only(current: &str) -> (r: Self)
        ensures
            r.state == AppUpdateState::Idle,
            r.current@ == current@,
            r.latest is None,
            r.notes_url is None,
            r.asset_name is None,
            r.bytes_downloaded == 0,
            r.bytes_total is None,
            r.message is None,
            !r.available,
    {
        AppUpdateStatus {
            state: AppUpdateState::Idle,
            current: String::from_str(current),
            latest: None,
            notes_url: None,
            asset_name: None,
            bytes_downloaded: 0,
            bytes_total: None,
            message: None,
            available: false,
        }
    }
}

/// The release tag as a version: trimmed, without leading `v`s.
pub open spec fn tag_version(tag: Seq<char>) -> Seq<char> {
    strip_leading(trim(tag), 'v')
}

/// Message when the newer release has no installer for this platform.
pub open spec fn no_installer_message(os: Seq<char>, arch: Seq<char>) -> Seq<char> {
    "No installer for "@ + os + "/"@ + arch + " in the latest release"@
}

/// Error text when the latest release has no installer for this platform.
pub open spec fn missing_installer_error(os: Seq<char>, arch: Seq<char>, tag: Seq<char>) -> Seq<char> {
    "no installer for "@ + os + "/"@ + arch + " in "@ + tag
}

/// The status `fetch_latest` reports for `release`, given the running version.
pub open spec fn release_status_ok(
    r: AppUpdateStatus,
    current: Seq<char>,
    release: GhRelease,
    os: Seq<char>,
    arch: Seq<char>,
) -> bool {
    let latest = tag_version(release.tag_name@);
    let available = newer(latest, current);
    let pick = if available { best_asset(release.assets@, os, arch) } else { None };
    &&& r.current@ == current
    &&& opt_view(r.latest) == Some(latest)
    &&& opt_view(r.notes_url) == Some(release.html_url@)
    &&& r.bytes_downloaded == 0
    &&& if available && pick is None {
        &&& r.state == AppUpdateState::Error
        &&& r.asset_name is None
        &&& r.bytes_total is None
        &&& opt_view(r.message) == Some(no_installer_message(os, arch))
        &&& !r.available
    } else {
        &&& r.state == if available { AppUpdateState::Available } else { AppUpdateState::Idle }
        &&& opt_view(r.asset_name) == match pick {
            Some(k) => Some(release.assets@[k].name@),
            None => None,
        }
        &&& r.bytes_total == match pick {
            Some(k) => Some(release.assets@[k].size),
            None => None,
        }
        &&& opt_view(r.message) == Some(
            if available {
                "A newer desktop build is available."@
            } else {
                "This app is up to date."@
            },
        )
        &&& r.available == available
    }
}

fn text_of(lit: &str) -> (r: String)
    ensures
        r@ == lit@,
{
    String::from_str(lit)
}

/// What `fetch_latest` reports once GitHub answered with `release`.
pub fn release_status(current: &str, release: &GhRelease, os: &str, arch: &str) -> (r: AppUpdateStatus)
    ensures
        release_status_ok(r, current@, *release, os@, arch@),
{
    let latest = strip_leading_of(&trim_of(&chars_of(release.tag_name.as_str())), 'v');
    let available = is_newer_chars(&latest, &chars_of(current));
    let osv = chars_of(os);
    let archv = chars_of(arch);
    let pick = if available {
        pick_asset_index(release.assets.as_slice(), &osv, &archv)
    } else {
        None
    };
    proof { lemma_best_among(release.assets@, os@, arch@, release.assets@.len() as int); }
    if available && pick.is_none() {
        let mut msg: Vec<char> = Vec::new();
        push_str(&mut msg, "No installer for ");
        push_chars(&mut msg, &osv);
        push_str(&mut msg, "/");
        push_chars(&mut msg, &archv);
        push_str(&mut msg, " in the latest release");
        return AppUpdateStatus {
            state: AppUpdateState::Error,
            current: String::from_str(current),
            latest: Some(string_of(&latest)),
            notes_url: Some(release.html_url.clone()),
            asset_name: None,
            bytes_downloaded: 0,
            bytes_total: None,
            message: Some(string_of(&msg)),
            available: false,
        };
    }
    let (asset_name, bytes_total) = match pick {
        Some(k) => (Some(release.assets[k].name.clone()), Some(release.assets[k].size)),
        None => (None, None),
    };
    AppUpdateStatus {
        state: if available {
            AppUpdateState::Available
        } else {
            AppUpdateState::Idle
        },
        current: String::from_str(current),
        latest: Some(string_of(&latest)),
        notes_url: Some(release.html_url.clone()),
        asset_name,
        bytes_downloaded: 0,
        bytes_total,
        message: if available {
            Some(text_of("A newer desktop build is available."))
        } else {
            Some(text_of("This app is up to date."))
        },
        available,
    }
}

/// The installer that `download_installer` fetches from `release`, or its error text.
pub fn installer_for<'a>(release: &'a GhRelease, os: &str, arch: &str) -> (r: Result<&'a GhAsset, String>)
    ensures
        match best_asset(release.assets@, os@, arch@) {
            Some(k) => r matches Ok(a) && *a == release.assets@[k],
            None => r matches Err(e) && e@ == missing_installer_error(os@, arch@, release.tag_name@),
        },
{
    match pick_asset(release.assets.as_slice(), os, arch) {
        Some(a) => Ok(a),
        None => {
            let mut msg: Vec<char> = Vec::new();
            push_str(&mut msg, "no installer for ");
            push_str(&mut msg, os);
            push_str(&mut msg, "/");
            push_str(&mut msg, arch);
            push_str(&mut msg, " in ");
            push_str(&mut msg, release.tag_name.as_str());
            Err(string_of(&msg))
        },
    }
}

/// Size the download is expected to reach: the announced length, else the asset size.
pub fn expected_size(content_length: Option<u64>, asset: &GhAsset) -> (r: Option<u64>)
    ensures
        r == match content_length {
            Some(n) => Some(n),
            None => Some(asset.size),
        },
{
    match content_length {
        Some(n) => Some(n),
        None => Some(asset.size),
    }
}

/// Status once the installer `asset` of `release` has been downloaded.
pub fn installing_status(
    current: &str,
    release: &GhRelease,
    asset: &GhAsset,
    downloaded: u64,
    total: Option<u64>,
) -> (r: AppUpdateStatus)
    ensures
        r.state == AppUpdateState::Installing,
        r.current@ == current@,
        opt_view(r.latest) == Some(tag_version(release.tag_name@)),
        opt_view(r.notes_url) == Some(release.html_url@),
        opt_view(r.asset_name) == Some(asset.name@),
        r.bytes_downloaded == downloaded,
        r.bytes_total == total,
        opt_view(r.message) == Some("Installer downloaded; launching."@),
        r.available,
{
    let latest = strip_leading_of(&trim_of(&chars_of(release.tag_name.as_str())), 'v');
    AppUpdateStatus {
        state: AppUpdateState::Installing,
        current: String::from_str(current),
        latest: Some(string_of(&latest)),
        notes_url: Some(release.html_url.clone()),
        asset_name: Some(asset.name.clone()),
        bytes_downloaded: downloaded,
        bytes_total: total,
        message: Some(text_of("Installer downloaded; launching.")),
        available: true,
    }
}

} // verus!
