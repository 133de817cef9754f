//! Semver precedence between pre-release tags (`rc.2` above `rc.1`, `beta` above
//! `alpha.9`, a numeric identifier below an alphanumeric one).

use vstd::prelude::*;
use crate::numbers::{all_digits, digit_run, digit_run_of, digits_value, lemma_digit_run, parse_digits};
use crate::text::{find_char, lemma_find_char, split_once, split_once_of};

verus! {

/// The sign of `d`: -1, 0 or 1.
pub open spec fn sign(d: int) -> int {
    if d < 0 {
        -1
    } else if d > 0 {
        1
    } else {
        0
    }
}

/// Order of two texts character by character (by code point), a proper prefix
/// first: -1, 0 or 1.
pub open spec fn lex_order(x: Seq<char>, y: Seq<char>) -> int
    decreases x.len(),
{
    if x.len() == 0 {
        if y.len() == 0 {
            0
        } else {
            -1
        }
    } else if y.len() == 0 {
        1
    } else if x[0] < y[0] {
        -1
    } else if x[0] > y[0] {
        1
    } else {
        lex_order(x.drop_first(), y.drop_first())
    }
}

/// A numeric identifier: digits only, with a value that fits in a `u64`.
pub open spec fn numeric_ident(x: Seq<char>) -> bool {
    x.len() > 0 && all_digits(x) && digits_value(x) <= u64::MAX
}

/// Semver order of two pre-release identifiers: numeric ones by value, numeric
/// below alphanumeric, alphanumeric ones character by character.
pub open spec fn ident_order(x: Seq<char>, y: Seq<char>) -> int {
    if numeric_ident(x) && numeric_ident(y) {
        sign(digits_value(x) - digits_value(y))
    } else if numeric_ident(x) {
        -1
    } else if numeric_ident(y) {
        1
    } else {
        lex_order(x, y)
    }
}

/// Semver order of two pre-release tags (dot-separated identifiers): the first
/// identifiers that differ decide; when one tag runs out first, it is the lower.
pub open spec fn tag_order(s: Seq<char>, t: Seq<char>) -> int
    decreases s.len(),
{
    let (a, ra) = split_once(s, '.');
    let (b, rb) = split_once(t, '.');
    let c = ident_order(a, b);
    if c != 0 {
        c
    } else {
        match (ra, rb) {
            (Some(x), Some(y)) => {
                proof {
                    lemma_find_char(s, '.');
                }
                tag_order(x, y)
            },
            (None, None) => 0,
            (None, Some(_)) => -1,
            (Some(_), None) => 1,
        }
    }
}

// ---------------------------------------------------------------- order facts

proof fn lemma_lex_order(x: Seq<char>, y: Seq<char>)
    ensures
        lex_order(x, y) == -lex_order(y, x),
        -1 <= lex_order(x, y) <= 1,
        lex_order(x, y) == 0 <==> x == y,
    decreases x.len(),
{
    if x.len() == 0 && y.len() == 0 {
        assert(x =~= y);
    }
    if x.len() > 0 && y.len() > 0 && x[0] == y[0] {
        lemma_lex_order(x.drop_first(), y.drop_first());
        if x.drop_first() == y.drop_first() {
            assert(x =~= seq![x[0]] + x.drop_first());
            assert(y =~= seq![y[0]] + y.drop_first());
        }
    }
}

proof fn lemma_lex_order_transitive(x: Seq<char>, y: Seq<char>, z: Seq<char>)
    requires
        lex_order(x, y) > 0,
        lex_order(y, z) > 0,
    ensures
        lex_order(x, z) > 0,
    decreases x.len(),
{
    if x.len() > 0 && y.len() > 0 && z.len() > 0 && x[0] == y[0] && y[0] == z[0] {
        lemma_lex_order_transitive(x.drop_first(), y.drop_first(), z.drop_first());
    }
}

proof fn lemma_ident_order(x: Seq<char>, y: Seq<char>)
    ensures
        ident_order(x, y) == -ident_order(y, x),
        -1 <= ident_order(x, y) <= 1,
        ident_order(x, x) == 0,
        ident_order(x, y) == 0 ==> forall|z: Seq<char>| #[trigger] ident_order(x, z) == ident_order(y, z),
{
    lemma_lex_order(x, y);
    lemma_lex_order(x, x);
}

proof fn lemma_ident_order_transitive(x: Seq<char>, y: Seq<char>, z: Seq<char>)
    requires
        ident_order(x, y) > 0,
        ident_order(y, z) > 0,
    ensures
        ident_order(x, z) > 0,
{
    if !numeric_ident(x) && !numeric_ident(y) && !numeric_ident(z) {
        lemma_lex_order_transitive(x, y, z);
    }
}

/// `tag_order` is antisymmetric, and each tag ranks level with itself.
pub proof fn lemma_tag_order(s: Seq<char>, t: Seq<char>)
    ensures
        tag_order(s, t) == -tag_order(t, s),
        -1 <= tag_order(s, t) <= 1,
        tag_order(s, s) == 0,
    decreases s.len(),
{
    lemma_find_char(s, '.');
    lemma_find_char(t, '.');
    let (a, ra) = split_once(s, '.');
    let (b, rb) = split_once(t, '.');
    lemma_ident_order(a, b);
    lemma_ident_order(a, a);
    if ra is Some {
        lemma_tag_order(ra->Some_0, ra->Some_0);
        if rb is Some {
            lemma_tag_order(ra->Some_0, rb->Some_0);
        }
    }
}

/// `tag_order` is transitive.
pub proof fn lemma_tag_order_transitive(s: Seq<char>, t: Seq<char>, u: Seq<char>)
    requires
        tag_order(s, t) > 0,
        tag_order(t, u) > 0,
    ensures
        tag_order(s, u) > 0,
    decreases s.len(),
{
    lemma_find_char(s, '.');
    lemma_find_char(t, '.');
    lemma_find_char(u, '.');
    let (a, ra) = split_once(s, '.');
    let (b, rb) = split_once(t, '.');
    let (c, rc) = split_once(u, '.');
    lemma_ident_order(a, b);
    lemma_ident_order(b, c);
    lemma_ident_order(a, c);
    lemma_ident_order(c, a);
    lemma_ident_order(b, a);
    if ident_order(a, b) > 0 && ident_order(b, c) > 0 {
        lemma_ident_order_transitive(a, b, c);
    } else if ident_order(a, b) == 0 && ident_order(b, c) == 0 {
        assert(ident_order(a, c) == ident_order(b, c));
        if ra is Some && rb is Some && rc is Some {
            lemma_tag_order_transitive(ra->Some_0, rb->Some_0, rc->Some_0);
        }
    } else if ident_order(a, b) == 0 {
        assert(ident_order(a, c) == ident_order(b, c));
    } else {
        assert(ident_order(c, b) == 0);
        assert(ident_order(c, a) == ident_order(b, a));
    }
}

// ---------------------------------------------------------------- executable

fn lex_order_of(x: &Vec<char>, y: &Vec<char>) -> (r: i8)
    ensures
        r == lex_order(x@, y@),
{
    let mut i: usize = 0;
    assert(x@.subrange(0, x@.len() as int) =~= x@);
    assert(y@.subrange(0, y@.len() as int) =~= y@);
    while i < x.len() && i < y.len() && x[i] == y[i]
        invariant
            i <= x.len(),
            i <= y.len(),
            lex_order(x@, y@) == lex_order(x@.subrange(i as int, x@.len() as int), y@.subrange(i as int, y@.len() as int)),
        decreases x.len() - i,
    {
        proof {
            let sx = x@.subrange(i as int, x@.len() as int);
            let sy = y@.subrange(i as int, y@.len() as int);
            assert(sx.drop_first() =~= x@.subrange(i + 1, x@.len() as int));
            assert(sy.drop_first() =~= y@.subrange(i + 1, y@.len() as int));
            assert(sx[0] == sy[0]);
        }
        i += 1;
    }
    let ghost sx = x@.subrange(i as int, x@.len() as int);
    let ghost sy = y@.subrange(i as int, y@.len() as int);
    if i == x.len() {
        if i == y.len() {
            0
        } else {
            -1
        }
    } else if i == y.len() {
        1
    } else {
        assert(sx[0] == x@[i as int] && sy[0] == y@[i as int]);
        if x[i] < y[i] {
            -1
        } else {
            1
        }
    }
}

/// The value of a numeric identifier; `None` for any other identifier.
fn numeric_value(x: &Vec<char>) -> (r: Option<u64>)
    ensures
        r is Some <==> numeric_ident(x@),
        r matches Some(v) ==> v == digits_value(x@),
{
    if x.len() == 0 {
        return None;
    }
    proof { lemma_digit_run(x@); }
    let k = digit_run_of(x);
    if k < x.len() {
        return None;
    }
    assert(x@.subrange(0, k as int) =~= x@);
    parse_digits(x)
}

fn ident_order_of(x: &Vec<char>, y: &Vec<char>) -> (r: i8)
    ensures
        r == ident_order(x@, y@),
{
    match (numeric_value(x), numeric_value(y)) {
        (Some(a), Some(b)) => {
            if a < b {
                -1
            } else if a > b {
                1
            } else {
                0
            }
        },
        (Some(_), None) => -1,
        (None, Some(_)) => 1,
        (None, None) => lex_order_of(x, y),
    }
}

/// Semver order of two pre-release tags: -1, 0 or 1.
pub fn tag_order_of(s: &Vec<char>, t: &Vec<char>) -> (r: i8)
    ensures
        r == tag_order(s@, t@),
{
    let mut x = s.clone();
    let mut y = t.clone();
    assert(x@ == s@);
    loop
        invariant
            tag_order(s@, t@) == tag_order(x@, y@),
        decreases x@.len(),
    {
        proof {
            lemma_find_char(x@, '.');
        }
        let (a, ra) = split_once_of(&x, '.');
        let (b, rb) = split_once_of(&y, '.');
        let c = ident_order_of(&a, &b);
        if c != 0 {
            return c;
        }
        match (ra, rb) {
            (Some(x2), Some(y2)) => {
                x = x2;
                y = y2;
            },
            (None, None) => return 0,
            (None, Some(_)) => return -1,
            (Some(_), None) => return 1,
        }
    }
}

} // verus!
