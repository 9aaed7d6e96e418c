use vstd::prelude::*;

use crate::geometry::Vec2Fx;
use vstd::string::StringSliceAdditionalSpecFns;

verus! {

/// Largest coordinate the maze text may carry, in thousandths of a cell
/// (two hundred cells either way). Values outside are rejected at load
/// time so that later world-space arithmetic stays in bounds.
pub const CELL_COORD_LIMIT: i64 = 200_000;

/// Largest wall-range endpoint, in whole cells.
pub const CELL_INDEX_LIMIT: i64 = 200;

/// Largest accepted friction coefficient, in thousandths.
pub const FRICTION_LIMIT: i64 = 1_000_000;

pub open spec fn is_digit(b: u8) -> bool {
    48 <= b <= 57
}

pub open spec fn is_ws(b: u8) -> bool {
    b == 9 || b == 10 || b == 11 || b == 12 || b == 13 || b == 32
}

pub open spec fn upper_byte(b: u8) -> u8 {
    if 97 <= b <= 122 {
        (b - 32) as u8
    } else {
        b
    }
}

/// Index of the first occurrence of `b`, or the length when absent.
pub open spec fn first_at(s: Seq<u8>, b: u8) -> int
    decreases s.len(),
{
    if s.len() == 0 {
        0
    } else if s[0] == b {
        0
    } else {
        1 + first_at(s.skip(1), b)
    }
}

pub proof fn lemma_first_at(s: Seq<u8>, b: u8)
    ensures
        0 <= first_at(s, b) <= s.len(),
        first_at(s, b) < s.len() ==> s[first_at(s, b)] == b,
        forall|i: int| 0 <= i < first_at(s, b) ==> s[i] != b,
    decreases s.len(),
{
    if s.len() > 0 && s[0] != b {
        lemma_first_at(s.skip(1), b);
        assert forall|i: int| 0 <= i < first_at(s, b) implies s[i] != b by {
            if i > 0 {
                assert(s.skip(1)[i - 1] == s[i]);
            }
        }
        if first_at(s, b) < s.len() {
            assert(s.skip(1)[first_at(s, b) - 1] == s[first_at(s, b)]);
        }
    }
}

/// The converse: a scan that found no `b` before `j`, and `b` (or the end)
/// at `j`, has found the first occurrence.
pub proof fn lemma_first_at_converse(s: Seq<u8>, b: u8, j: int)
    requires
        0 <= j <= s.len(),
        forall|i: int| 0 <= i < j ==> s[i] != b,
        j == s.len() || s[j] == b,
    ensures
        first_at(s, b) == j,
    decreases s.len(),
{
    if s.len() > 0 && s[0] != b {
        assert forall|i: int| 0 <= i < j - 1 implies s.skip(1)[i] != b by {
            assert(s.skip(1)[i] == s[i + 1]);
        }
        if j < s.len() {
            assert(s.skip(1)[j - 1] == s[j]);
        }
        lemma_first_at_converse(s.skip(1), b, j - 1);
    }
}

/// Scan `v[lo..hi]` for the first occurrence of `b`.
pub fn find_byte(v: &Vec<u8>, lo: usize, hi: usize, b: u8) -> (r: usize)
    requires
        lo <= hi <= v@.len(),
    ensures
        lo <= r <= hi,
        r - lo == first_at(v@.subrange(lo as int, hi as int), b),
        r < hi ==> v@[r as int] == b,
        forall|i: int| lo <= i < r ==> v@[i] != b,
{
    let ghost s = v@.subrange(lo as int, hi as int);
    let mut i: usize = lo;
    while i < hi && *v.get(i).unwrap() != b
        invariant
            lo <= i <= hi <= v@.len(),
            forall|k: int| lo <= k < i ==> v@[k] != b,
        decreases hi - i,
    {
        i += 1;
    }
    proof {
        assert forall|k: int| 0 <= k < i - lo implies s[k] != b by {
            assert(s[k] == v@[lo + k]);
        }
        if i < hi {
            assert(s[i - lo] == v@[i as int]);
        }
        lemma_first_at_converse(s, b, i - lo);
    }
    i
}

pub open spec fn trim_start_spec(s: Seq<u8>) -> Seq<u8>
    decreases s.len(),
{
    if s.len() > 0 && is_ws(s[0]) {
        trim_start_spec(s.skip(1))
    } else {
        s
    }
}

pub open spec fn trim_end_spec(s: Seq<u8>) -> Seq<u8>
    decreases s.len(),
{
    if s.len() > 0 && is_ws(s.last()) {
        trim_end_spec(s.drop_last())
    } else {
        s
    }
}

/// The sequence with ASCII whitespace removed from both ends.
pub open spec fn trim_spec(s: Seq<u8>) -> Seq<u8> {
    trim_end_spec(trim_start_spec(s))
}

proof fn lemma_trim_start_skip(s: Seq<u8>, j: int)
    requires
        0 <= j <= s.len(),
        forall|i: int| 0 <= i < j ==> is_ws(s[i]),
        j == s.len() || !is_ws(s[j]),
    ensures
        trim_start_spec(s) == s.skip(j),
    decreases s.len(),
{
    if j == 0 {
        assert(s.skip(0) == s);
    } else {
        assert(is_ws(s[0]));
        assert forall|i: int| 0 <= i < j - 1 implies is_ws(s.skip(1)[i]) by {
            assert(s.skip(1)[i] == s[i + 1]);
        }
        if j < s.len() {
            assert(s.skip(1)[j - 1] == s[j]);
        }
        lemma_trim_start_skip(s.skip(1), j - 1);
        assert(s.skip(1).skip(j - 1) == s.skip(j));
    }
}

proof fn lemma_trim_end_take(s: Seq<u8>, j: int)
    requires
        0 <= j <= s.len(),
        forall|i: int| j <= i < s.len() ==> is_ws(s[i]),
        j == 0 || !is_ws(s[j - 1]),
    ensures
        trim_end_spec(s) == s.take(j),
    decreases s.len(),
{
    if j == s.len() {
        assert(s.take(j) == s);
    } else {
        assert(is_ws(s.last()));
        assert forall|i: int| j <= i < s.drop_last().len() implies is_ws(s.drop_last()[i]) by {
            assert(s.drop_last()[i] == s[i]);
        }
        if j > 0 {
            assert(s.drop_last()[j - 1] == s[j - 1]);
        }
        lemma_trim_end_take(s.drop_last(), j);
        assert(s.drop_last().take(j) == s.take(j));
    }
}

fn ws_at(v: &Vec<u8>, i: usize) -> (r: bool)
    requires
        i < v@.len(),
    ensures
        r == is_ws(v@[i as int]),
{
    let b = *v.get(i).unwrap();
    b == 9 || b == 10 || b == 11 || b == 12 || b == 13 || b == 32
}

/// Trim `v[lo..hi]`, returning the tightened bounds.
pub fn trim_range(v: &Vec<u8>, lo: usize, hi: usize) -> (r: (usize, usize))
    requires
        lo <= hi <= v@.len(),
    ensures
        lo <= r.0 <= r.1 <= hi,
        v@.subrange(r.0 as int, r.1 as int) == trim_spec(v@.subrange(lo as int, hi as int)),
{
    let ghost s = v@.subrange(lo as int, hi as int);
    let mut a: usize = lo;
    while a < hi && ws_at(v, a)
        invariant
            lo <= a <= hi <= v@.len(),
            forall|k: int| lo <= k < a ==> is_ws(v@[k]),
        decreases hi - a,
    {
        a += 1;
    }
    let mut z: usize = hi;
    while z > a && ws_at(v, z - 1)
        invariant
            a <= z <= hi <= v@.len(),
            forall|k: int| z <= k < hi ==> is_ws(v@[k]),
            a == hi || !is_ws(v@[a as int]),
        decreases z,
    {
        z -= 1;
    }
    proof {
        assert forall|i: int| 0 <= i < a - lo implies is_ws(s[i]) by {
            assert(s[i] == v@[lo + i]);
        }
        if a < hi {
            assert(s[a - lo] == v@[a as int]);
        }
        lemma_trim_start_skip(s, a - lo);
        let t = s.skip(a - lo);
        assert forall|i: int| z - a <= i < t.len() implies is_ws(t[i]) by {
            assert(t[i] == v@[a + i]);
        }
        if z > a {
            assert(t[z - a - 1] == v@[z - 1]);
        }
        lemma_trim_end_take(t, z - a);
        assert(t.take(z - a) == v@.subrange(a as int, z as int));
    }
    (a, z)
}

/// Numeric value of a digit string.
pub open spec fn digits_val(s: Seq<u8>) -> int
    decreases s.len(),
{
    if s.len() == 0 {
        0
    } else {
        digits_val(s.drop_last()) * 10 + (s.last() - 48)
    }
}

pub open spec fn all_digits(s: Seq<u8>) -> bool {
    forall|i: int| 0 <= i < s.len() ==> is_digit(#[trigger] s[i])
}

proof fn lemma_digits_val_nonneg(s: Seq<u8>)
    requires
        all_digits(s),
    ensures
        digits_val(s) >= 0,
    decreases s.len(),
{
    if s.len() > 0 {
        assert forall|i: int| 0 <= i < s.drop_last().len() implies is_digit(
            #[trigger] s.drop_last()[i],
        ) by {
            assert(s.drop_last()[i] == s[i]);
        }
        lemma_digits_val_nonneg(s.drop_last());
    }
}

/// Extending a digit string on the right never shrinks its value.
proof fn lemma_digits_val_prefix(s: Seq<u8>, j: int)
    requires
        all_digits(s),
        0 <= j <= s.len(),
    ensures
        digits_val(s.take(j)) <= digits_val(s),
    decreases s.len() - j,
{
    if j < s.len() {
        assert forall|i: int| 0 <= i < s.take(j + 1).len() implies is_digit(
            #[trigger] s.take(j + 1)[i],
        ) by {
            assert(s.take(j + 1)[i] == s[i]);
        }
        assert(s.take(j + 1).drop_last() == s.take(j));
        lemma_digits_val_nonneg(s.take(j + 1));
        lemma_digits_val_nonneg(s.take(j));
        assert(digits_val(s.take(j + 1)) == digits_val(s.take(j)) * 10 + (s[j] - 48));
        lemma_digits_val_prefix(s, j + 1);
    } else {
        assert(s.take(j) == s);
    }
}

/// Parse an unsigned digit run `v[lo..hi]`, refusing values above `limit`.
/// Mirrors `digits_val` exactly on well-formed input.
fn parse_digits(v: &Vec<u8>, lo: usize, hi: usize, limit: i64) -> (r: Option<i64>)
    requires
        lo <= hi <= v@.len(),
        0 <= limit <= 1_000_000_000,
    ensures
        ({
            let s = v@.subrange(lo as int, hi as int);
            match r {
                Some(n) => s.len() > 0 && all_digits(s) && n == digits_val(s) && 0 <= n <= limit,
                None => s.len() == 0 || !all_digits(s) || digits_val(s) > limit,
            }
        }),
{
    let ghost s = v@.subrange(lo as int, hi as int);
    if lo == hi {
        return None;
    }
    let mut acc: i64 = 0;
    let mut i: usize = lo;
    while i < hi
        invariant
            lo <= i <= hi <= v@.len(),
            0 <= acc <= limit <= 1_000_000_000,
            s == v@.subrange(lo as int, hi as int),
            all_digits(s.take(i - lo)),
            acc == digits_val(s.take(i - lo)),
        decreases hi - i,
    {
        let b = *v.get(i).unwrap();
        proof {
            assert(s[i - lo] == v@[i as int]);
        }
        if b < 48 || b > 57 {
            proof {
                assert(!is_digit(s[i - lo]));
            }
            return None;
        }
        let d: i64 = (b - 48) as i64;
        let next: i64 = acc * 10 + d;
        proof {
            assert(s.take(i - lo + 1).drop_last() == s.take(i - lo));
            assert forall|k: int| 0 <= k < i - lo + 1 implies is_digit(#[trigger] s.take(
                i - lo + 1,
            )[k]) by {
                assert(s.take(i - lo + 1)[k] == s[k]);
            }
        }
        if next > limit {
            proof {
                if all_digits(s) {
                    lemma_digits_val_prefix(s, i - lo + 1);
                }
            }
            return None;
        }
        acc = next;
        i += 1;
    }
    proof {
        assert(s.take(hi - lo) == s);
    }
    Some(acc)
}

/// Thousandths contributed by a fraction digit run; digits beyond the
/// third are truncated.
pub open spec fn frac_milli(fr: Seq<u8>) -> int {
    if fr.len() >= 3 {
        digits_val(fr.take(3))
    } else if fr.len() == 2 {
        digits_val(fr) * 10
    } else if fr.len() == 1 {
        digits_val(fr) * 100
    } else {
        0
    }
}

/// Value in thousandths of an unsigned decimal numeral: a digit run with
/// an optional dot and fraction run, at least one digit in all.
pub open spec fn unsigned_fixed_val(s: Seq<u8>) -> Option<int> {
    let dot = first_at(s, 46);
    if dot == s.len() {
        if s.len() > 0 && all_digits(s) {
            Some(digits_val(s) * 1000)
        } else {
            Option::None
        }
    } else {
        let ip = s.take(dot);
        let fp = s.skip(dot + 1);
        if ip.len() + fp.len() > 0 && all_digits(ip) && all_digits(fp) {
            Some(digits_val(ip) * 1000 + frac_milli(fp))
        } else {
            Option::None
        }
    }
}

/// Value in thousandths of a signed decimal numeral.
pub open spec fn fixed_val(s: Seq<u8>) -> Option<int> {
    if s.len() > 0 && s[0] == 45 {
        match unsigned_fixed_val(s.skip(1)) {
            Some(v) => Some(-v),
            Option::None => Option::None,
        }
    } else if s.len() > 0 && s[0] == 43 {
        unsigned_fixed_val(s.skip(1))
    } else {
        unsigned_fixed_val(s)
    }
}

/// A numeral parses within `limit` when its grammar is well formed and its
/// magnitude in thousandths does not exceed the limit.
pub open spec fn fixed_ok(s: Seq<u8>, limit: int) -> bool {
    match fixed_val(s) {
        Some(v) => -limit <= v <= limit,
        Option::None => false,
    }
}

fn all_digits_range(v: &Vec<u8>, lo: usize, hi: usize) -> (r: bool)
    requires
        lo <= hi <= v@.len(),
    ensures
        r == all_digits(v@.subrange(lo as int, hi as int)),
{
    let ghost s = v@.subrange(lo as int, hi as int);
    let mut i: usize = lo;
    while i < hi
        invariant
            lo <= i <= hi <= v@.len(),
            s == v@.subrange(lo as int, hi as int),
            forall|k: int| 0 <= k < i - lo ==> is_digit(#[trigger] s[k]),
        decreases hi - i,
    {
        let b = *v.get(i).unwrap();
        proof {
            assert(s[i - lo] == v@[i as int]);
        }
        if b < 48 || b > 57 {
            return false;
        }
        i += 1;
    }
    true
}

/// Parse the unsigned numeral in `v[lo..hi]` to thousandths.
fn parse_unsigned_fixed(v: &Vec<u8>, lo: usize, hi: usize, limit: i64) -> (r: Option<i64>)
    requires
        lo <= hi <= v@.len(),
        0 < limit <= 1_000_000_000,
        limit % 1000 == 0,
    ensures
        ({
            let s = v@.subrange(lo as int, hi as int);
            match r {
                Some(n) => unsigned_fixed_val(s) == Some(n as int) && 0 <= n <= limit,
                None => match unsigned_fixed_val(s) {
                    Some(v) => v > limit,
                    Option::None => true,
                },
            }
        }),
{
    let ghost s = v@.subrange(lo as int, hi as int);
    proof {
        lemma_first_at(s, 46);
    }
    let dot = find_byte(v, lo, hi, 46);
    if dot == hi {
        proof {
            lemma_first_at_converse(s, 46, hi - lo);
        }
        match parse_digits(v, lo, hi, limit / 1000) {
            Some(n) => Some(n * 1000),
            None => None,
        }
    } else {
        proof {
            assert(first_at(s, 46) == dot - lo);
            assert(s.take(dot - lo) == v@.subrange(lo as int, dot as int));
            assert(s.skip(dot - lo + 1) == v@.subrange(dot + 1, hi as int));
        }
        let ghost ip = s.take(dot - lo);
        let ghost fp = s.skip(dot - lo + 1);
        if lo == dot && dot + 1 == hi {
            return None;
        }
        let ipv: i64 = if lo == dot {
            proof {
                assert(ip.len() == 0);
            }
            0
        } else {
            match parse_digits(v, lo, dot, limit / 1000) {
                Some(n) => n,
                None => {
                    proof {
                        if all_digits(ip) && all_digits(fp) {
                            lemma_frac_milli_nonneg(fp);
                            vstd::arithmetic::div_mod::lemma_fundamental_div_mod(
                                limit as int,
                                1000,
                            );
                        }
                    }
                    return None;
                },
            }
        };
        if !all_digits_range(v, dot + 1, hi) {
            return None;
        }
        let fend: usize = if hi - (dot + 1) >= 3 {
            dot + 4
        } else {
            hi
        };
        let fv: i64 = if dot + 1 == fend {
            0
        } else {
            proof {
                assert(v@.subrange(dot + 1, fend as int) == fp.take(fend - (dot + 1)));
                assert forall|k: int| 0 <= k < fend - (dot + 1) implies is_digit(
                    #[trigger] fp.take(fend - (dot + 1))[k],
                ) by {
                    assert(fp.take(fend - (dot + 1))[k] == fp[k]);
                }
            }
            match parse_digits(v, dot + 1, fend, 999) {
                Some(n) => {
                    if fend - (dot + 1) == 2 {
                        n * 10
                    } else if fend - (dot + 1) == 1 {
                        n * 100
                    } else {
                        n
                    }
                },
                None => {
                    proof {
                        let f3 = fp.take(fend - (dot + 1));
                        lemma_digits_val_nonneg(f3);
                        lemma_digits_val_bounded(f3);
                    }
                    return None;
                },
            }
        };
        proof {
            if fp.len() >= 3 {
                assert(fp.take(3) == fp.take(fend - (dot + 1)));
            } else {
                assert(fp.take(fend - (dot + 1)) == fp);
            }
            lemma_digits_val_nonneg(ip);
        }
        let total: i64 = ipv * 1000 + fv;
        if total > limit {
            None
        } else {
            Some(total)
        }
    }
}

proof fn lemma_frac_milli_nonneg(fp: Seq<u8>)
    requires
        all_digits(fp),
    ensures
        frac_milli(fp) >= 0,
{
    if fp.len() >= 3 {
        assert forall|i: int| 0 <= i < fp.take(3).len() implies is_digit(
            #[trigger] fp.take(3)[i],
        ) by {
            assert(fp.take(3)[i] == fp[i]);
        }
        lemma_digits_val_nonneg(fp.take(3));
    } else {
        lemma_digits_val_nonneg(fp);
    }
}

/// A digit run of at most three digits stays below a thousand.
proof fn lemma_digits_val_bounded(s: Seq<u8>)
    requires
        all_digits(s),
        s.len() <= 3,
    ensures
        digits_val(s) <= 999,
    decreases s.len(),
{
    if s.len() > 0 {
        assert forall|i: int| 0 <= i < s.drop_last().len() implies is_digit(
            #[trigger] s.drop_last()[i],
        ) by {
            assert(s.drop_last()[i] == s[i]);
        }
        lemma_digits_val_bounded(s.drop_last());
        lemma_digits_val_nonneg(s.drop_last());
        if s.len() == 1 {
            assert(digits_val(s.drop_last()) == 0);
        } else if s.len() == 2 {
            lemma_digits_val_small(s.drop_last());
        } else {
            lemma_digits_val_small2(s.drop_last());
        }
    }
}

proof fn lemma_digits_val_small(s: Seq<u8>)
    requires
        all_digits(s),
        s.len() == 1,
    ensures
        digits_val(s) <= 9,
{
    assert(digits_val(s.drop_last()) == 0);
}

proof fn lemma_digits_val_small2(s: Seq<u8>)
    requires
        all_digits(s),
        s.len() == 2,
    ensures
        digits_val(s) <= 99,
{
    assert forall|i: int| 0 <= i < s.drop_last().len() implies is_digit(
        #[trigger] s.drop_last()[i],
    ) by {
        assert(s.drop_last()[i] == s[i]);
    }
    lemma_digits_val_small(s.drop_last());
    lemma_digits_val_nonneg(s.drop_last());
}

/// Parse the signed numeral in `v[lo..hi]` to thousandths, refusing
/// magnitudes above `limit`.
pub fn parse_fixed(v: &Vec<u8>, lo: usize, hi: usize, limit: i64) -> (r: Option<i64>)
    requires
        lo <= hi <= v@.len(),
        0 < limit <= 1_000_000_000,
        limit % 1000 == 0,
    ensures
        ({
            let s = v@.subrange(lo as int, hi as int);
            match r {
                Some(n) => fixed_val(s) == Some(n as int) && -limit <= n <= limit,
                None => !fixed_ok(s, limit as int),
            }
        }),
{
    let ghost s = v@.subrange(lo as int, hi as int);
    if lo == hi {
        return None;
    }
    let b0 = *v.get(lo).unwrap();
    proof {
        assert(s[0] == v@[lo as int]);
        if b0 == 45 || b0 == 43 {
            assert(s.skip(1) == v@.subrange(lo + 1, hi as int));
        }
    }
    if b0 == 45 {
        match parse_unsigned_fixed(v, lo + 1, hi, limit) {
            Some(n) => Some(-n),
            None => None,
        }
    } else if b0 == 43 {
        parse_unsigned_fixed(v, lo + 1, hi, limit)
    } else {
        parse_unsigned_fixed(v, lo, hi, limit)
    }
}

/// Value of a whole-number numeral with an optional leading plus sign.
pub open spec fn nat_val(s: Seq<u8>) -> Option<int> {
    let body = if s.len() > 0 && s[0] == 43 {
        s.skip(1)
    } else {
        s
    };
    if body.len() > 0 && all_digits(body) {
        Some(digits_val(body))
    } else {
        Option::None
    }
}

pub open spec fn nat_ok(s: Seq<u8>, limit: int) -> bool {
    match nat_val(s) {
        Some(v) => v <= limit,
        Option::None => false,
    }
}

/// Parse the unsigned whole number in `v[lo..hi]`, refusing values above
/// `limit`.
pub fn parse_nat(v: &Vec<u8>, lo: usize, hi: usize, limit: i64) -> (r: Option<i64>)
    requires
        lo <= hi <= v@.len(),
        0 < limit <= 1_000_000_000,
    ensures
        ({
            let s = v@.subrange(lo as int, hi as int);
            match r {
                Some(n) => nat_val(s) == Some(n as int) && 0 <= n <= limit,
                None => !nat_ok(s, limit as int),
            }
        }),
{
    let ghost s = v@.subrange(lo as int, hi as int);
    if lo == hi {
        return None;
    }
    let b0 = *v.get(lo).unwrap();
    proof {
        assert(s[0] == v@[lo as int]);
        if b0 == 43 {
            assert(s.skip(1) == v@.subrange(lo + 1, hi as int));
        }
    }
    if b0 == 43 {
        parse_digits(v, lo + 1, hi, limit)
    } else {
        parse_digits(v, lo, hi, limit)
    }
}

/// Whether a wall segment runs along a cell row or a cell column.
#[derive(Clone, Copy, Debug, PartialEq, Eq, Structural)]
pub enum Orientation {
    Vertical,
    Horizontal,
}

/// The heading the vehicle faces when the run begins.
#[derive(Clone, Copy, Debug, PartialEq, Eq, Structural)]
pub enum StartDirection {
    Up,
    Right,
    Down,
    Left,
}

/// One wall segment in cell coordinates (thousandths of a cell).
#[derive(Clone, Copy, Debug, PartialEq, Eq, Structural)]
pub struct Wall {
    pub start: Vec2Fx,
    pub end: Vec2Fx,
    pub orientation: Orientation,
}

/// The finish rectangle's two corners in cell coordinates, as written in
/// the maze text; normalization happens when mapping to world space.
#[derive(Clone, Copy, Debug, PartialEq, Eq, Structural)]
pub struct Finish {
    pub start: Vec2Fx,
    pub end: Vec2Fx,
}

/// The field a maze directive failed on.
#[derive(Clone, Copy, Debug, PartialEq, Eq, Structural)]
pub enum ParseField {
    StartX,
    StartY,
    Direction,
    FinishStart,
    FinishStartX,
    FinishStartY,
    FinishEnd,
    FinishEndX,
    FinishEndY,
    Friction,
    RowNumber,
    ColNumber,
    RangeStart,
    RangeEnd,
    UnknownKey,
}

/// A line-numbered, field-specific parse diagnostic.
#[derive(Clone, Copy, Debug, PartialEq, Eq, Structural)]
pub struct MazeParseError {
    pub line: usize,
    pub field: ParseField,
}

/// A maze in cell coordinates: wall segments, surface friction, the start
/// pose and the finish rectangle, exactly as the directive text gave them.
#[derive(Debug)]
pub struct Maze {
    pub walls: Vec<Wall>,
    pub friction: i64,
    pub start: Vec2Fx,
    pub start_direction: StartDirection,
    pub finish: Finish,
}

/// Mathematical view of a cell-space maze.
pub ghost struct MazeModel {
    pub walls: Seq<Wall>,
    pub friction: i64,
    pub start: Vec2Fx,
    pub start_direction: StartDirection,
    pub finish: Finish,
}

impl Maze {
    pub open spec fn model(&self) -> MazeModel {
        MazeModel {
            walls: self.walls@,
            friction: self.friction,
            start: self.start,
            start_direction: self.start_direction,
            finish: self.finish,
        }
    }
}

/// The state a parse starts from: friction one, start at the origin
/// facing right, no walls, an empty finish rectangle.
pub open spec fn init_model() -> MazeModel {
    MazeModel {
        walls: Seq::empty(),
        friction: 1000,
        start: Vec2Fx { x: 0, y: 0 },
        start_direction: StartDirection::Right,
        finish: Finish { start: Vec2Fx { x: 0, y: 0 }, end: Vec2Fx { x: 0, y: 0 } },
    }
}

/// Every coordinate a parse can store stays within these bounds, so the
/// world-space mapping cannot overflow.
pub open spec fn model_wf(m: MazeModel) -> bool {
    &&& forall|i: int|
        0 <= i < m.walls.len() ==> {
            &&& -CELL_COORD_LIMIT <= (#[trigger] m.walls[i]).start.x <= CELL_COORD_LIMIT
            &&& -CELL_COORD_LIMIT <= m.walls[i].start.y <= CELL_COORD_LIMIT
            &&& -CELL_COORD_LIMIT <= m.walls[i].end.x <= CELL_COORD_LIMIT
            &&& -CELL_COORD_LIMIT <= m.walls[i].end.y <= CELL_COORD_LIMIT
        }
    &&& -CELL_COORD_LIMIT - 500 <= m.start.x <= CELL_COORD_LIMIT + 500
    &&& -CELL_COORD_LIMIT - 500 <= m.start.y <= CELL_COORD_LIMIT + 500
    &&& 0 <= m.friction <= FRICTION_LIMIT
    &&& -CELL_COORD_LIMIT <= m.finish.start.x <= CELL_COORD_LIMIT
    &&& -CELL_COORD_LIMIT <= m.finish.start.y <= CELL_COORD_LIMIT
    &&& -CELL_COORD_LIMIT <= m.finish.end.x <= CELL_COORD_LIMIT
    &&& -CELL_COORD_LIMIT <= m.finish.end.y <= CELL_COORD_LIMIT
}

pub open spec fn upper_seq(s: Seq<u8>) -> Seq<u8> {
    s.map_values(|b: u8| upper_byte(b))
}

/// The `SP` directive: a comma-separated cell coordinate pair; the stored
/// start is offset by half a cell on each axis. A value with no comma is
/// ignored. The second coordinate is taken as written, untrimmed.
pub open spec fn apply_sp(st: MazeModel, v: Seq<u8>, lineno: int) -> Result<
    MazeModel,
    MazeParseError,
> {
    let comma = first_at(v, 44);
    if comma == v.len() {
        Ok(st)
    } else {
        let xs = trim_spec(v.take(comma));
        let ys = v.skip(comma + 1);
        if !fixed_ok(xs, CELL_COORD_LIMIT as int) {
            Err(MazeParseError { line: lineno as usize, field: ParseField::StartX })
        } else if !fixed_ok(ys, CELL_COORD_LIMIT as int) {
            Err(MazeParseError { line: lineno as usize, field: ParseField::StartY })
        } else {
            let x = fixed_val(xs)->Some_0;
            let y = fixed_val(ys)->Some_0;
            Ok(MazeModel { start: Vec2Fx { x: (x + 500) as i64, y: (y + 500) as i64 }, ..st })
        }
    }
}

/// The `SD` directive: a single letter choosing the start heading.
pub open spec fn apply_sd(st: MazeModel, v: Seq<u8>, lineno: int) -> Result<
    MazeModel,
    MazeParseError,
> {
    let d = upper_seq(trim_spec(v));
    if d =~= seq![76u8] {
        Ok(MazeModel { start_direction: StartDirection::Left, ..st })
    } else if d =~= seq![85u8] {
        Ok(MazeModel { start_direction: StartDirection::Up, ..st })
    } else if d =~= seq![68u8] {
        Ok(MazeModel { start_direction: StartDirection::Down, ..st })
    } else if d =~= seq![82u8] {
        Ok(MazeModel { start_direction: StartDirection::Right, ..st })
    } else {
        Err(MazeParseError { line: lineno as usize, field: ParseField::Direction })
    }
}

/// The `FI` directive: two comma pairs separated by a semicolon, giving
/// the finish rectangle's corners. A value with no semicolon is ignored.
pub open spec fn apply_fi(st: MazeModel, v: Seq<u8>, lineno: int) -> Result<
    MazeModel,
    MazeParseError,
> {
    let semi = first_at(v, 59);
    if semi == v.len() {
        Ok(st)
    } else {
        let l = v.take(semi);
        let r = v.skip(semi + 1);
        let lc = first_at(l, 44);
        if lc == l.len() {
            Err(MazeParseError { line: lineno as usize, field: ParseField::FinishStart })
        } else {
            let x1s = trim_spec(l.take(lc));
            let y1s = trim_spec(l.skip(lc + 1));
            if !fixed_ok(x1s, CELL_COORD_LIMIT as int) {
                Err(MazeParseError { line: lineno as usize, field: ParseField::FinishStartX })
            } else if !fixed_ok(y1s, CELL_COORD_LIMIT as int) {
                Err(MazeParseError { line: lineno as usize, field: ParseField::FinishStartY })
            } else {
                let rc = first_at(r, 44);
                if rc == r.len() {
                    Err(MazeParseError { line: lineno as usize, field: ParseField::FinishEnd })
                } else {
                    let x2s = trim_spec(r.take(rc));
                    let y2s = trim_spec(r.skip(rc + 1));
                    if !fixed_ok(x2s, CELL_COORD_LIMIT as int) {
                        Err(
                            MazeParseError {
                                line: lineno as usize,
                                field: ParseField::FinishEndX,
                            },
                        )
                    } else if !fixed_ok(y2s, CELL_COORD_LIMIT as int) {
                        Err(
                            MazeParseError {
                                line: lineno as usize,
                                field: ParseField::FinishEndY,
                            },
                        )
                    } else {
                        Ok(
                            MazeModel {
                                finish: Finish {
                                    start: Vec2Fx {
                                        x: fixed_val(x1s)->Some_0 as i64,
                                        y: fixed_val(y1s)->Some_0 as i64,
                                    },
                                    end: Vec2Fx {
                                        x: fixed_val(x2s)->Some_0 as i64,
                                        y: fixed_val(y2s)->Some_0 as i64,
                                    },
                                },
                                ..st
                            },
                        )
                    }
                }
            }
        }
    }
}

/// The `FR` directive: a non-negative friction coefficient. Negative or
/// oversized values are rejected at load time.
pub open spec fn apply_fr(st: MazeModel, v: Seq<u8>, lineno: int) -> Result<
    MazeModel,
    MazeParseError,
> {
    let fs = trim_spec(v);
    if fixed_ok(fs, FRICTION_LIMIT as int) && fixed_val(fs)->Some_0 >= 0 {
        Ok(MazeModel { friction: fixed_val(fs)->Some_0 as i64, ..st })
    } else {
        Err(MazeParseError { line: lineno as usize, field: ParseField::Friction })
    }
}

/// One `min-max` range token: a token without a dash is skipped, and each
/// accepted token appends one wall segment at the given row or column.
pub open spec fn apply_range_token(
    st: MazeModel,
    t: Seq<u8>,
    fixed_c: int,
    horiz: bool,
    lineno: int,
) -> Result<MazeModel, MazeParseError> {
    let dash = first_at(t, 45);
    if dash == t.len() {
        Ok(st)
    } else {
        let a = trim_spec(t.take(dash));
        let b = trim_spec(t.skip(dash + 1));
        if !nat_ok(a, CELL_INDEX_LIMIT as int) {
            Err(MazeParseError { line: lineno as usize, field: ParseField::RangeStart })
        } else if !nat_ok(b, CELL_INDEX_LIMIT as int) {
            Err(MazeParseError { line: lineno as usize, field: ParseField::RangeEnd })
        } else {
            let mn = nat_val(a)->Some_0 * 1000;
            let mx = nat_val(b)->Some_0 * 1000;
            let w = if horiz {
                Wall {
                    start: Vec2Fx { x: mn as i64, y: fixed_c as i64 },
                    end: Vec2Fx { x: mx as i64, y: fixed_c as i64 },
                    orientation: Orientation::Horizontal,
                }
            } else {
                Wall {
                    start: Vec2Fx { x: fixed_c as i64, y: mn as i64 },
                    end: Vec2Fx { x: fixed_c as i64, y: mx as i64 },
                    orientation: Orientation::Vertical,
                }
            };
            Ok(MazeModel { walls: st.walls.push(w), ..st })
        }
    }
}

/// The comma-separated range list of a wall directive, applied in order.
pub open spec fn apply_ranges(
    st: MazeModel,
    v: Seq<u8>,
    fixed_c: int,
    horiz: bool,
    lineno: int,
) -> Result<MazeModel, MazeParseError>
    decreases v.len(),
    via apply_ranges_dec
{
    let comma = first_at(v, 44);
    if comma == v.len() {
        apply_range_token(st, v, fixed_c, horiz, lineno)
    } else {
        match apply_range_token(st, v.take(comma), fixed_c, horiz, lineno) {
            Ok(st2) => apply_ranges(st2, v.skip(comma + 1), fixed_c, horiz, lineno),
            Err(e) => Err(e),
        }
    }
}

#[via_fn]
proof fn apply_ranges_dec(st: MazeModel, v: Seq<u8>, fixed_c: int, horiz: bool, lineno: int) {
    lemma_first_at(v, 44);
}

/// A `.R<row>` or `.C<col>` directive: the key's suffix is the fixed row
/// or column coordinate, the value its range list.
pub open spec fn apply_walls(
    st: MazeModel,
    key_rest: Seq<u8>,
    v: Seq<u8>,
    horiz: bool,
    lineno: int,
) -> Result<MazeModel, MazeParseError> {
    if !fixed_ok(key_rest, CELL_COORD_LIMIT as int) {
        Err(
            MazeParseError {
                line: lineno as usize,
                field: if horiz {
                    ParseField::RowNumber
                } else {
                    ParseField::ColNumber
                },
            },
        )
    } else {
        apply_ranges(st, v, fixed_val(key_rest)->Some_0, horiz, lineno)
    }
}

/// A line is passed over without effect when, once trimmed, it is a
/// comment or holds no colon.
pub open spec fn line_skipped(line: Seq<u8>) -> bool {
    let t = trim_spec(line);
    (t.len() > 0 && t[0] == 35) || first_at(line, 58) == line.len()
}

/// What one directive line does to the maze under construction.
pub open spec fn apply_line_spec(st: MazeModel, line: Seq<u8>, lineno: int) -> Result<
    MazeModel,
    MazeParseError,
> {
    if line_skipped(line) {
        Ok(st)
    } else {
        let colon = first_at(line, 58);
        let key = upper_seq(trim_spec(line.take(colon)));
        let v = line.skip(colon + 1);
        if key =~= seq![35u8] {
            Ok(st)
        } else if key =~= seq![83u8, 80u8] {
            apply_sp(st, v, lineno)
        } else if key =~= seq![83u8, 68u8] {
            apply_sd(st, v, lineno)
        } else if key =~= seq![70u8, 73u8] {
            apply_fi(st, v, lineno)
        } else if key =~= seq![70u8, 82u8] {
            apply_fr(st, v, lineno)
        } else if key.len() >= 2 && key[0] == 46 && key[1] == 82 {
            apply_walls(st, key.skip(2), v, true, lineno)
        } else if key.len() >= 2 && key[0] == 46 && key[1] == 67 {
            apply_walls(st, key.skip(2), v, false, lineno)
        } else {
            Err(MazeParseError { line: lineno as usize, field: ParseField::UnknownKey })
        }
    }
}

pub open spec fn strip_cr(s: Seq<u8>) -> Seq<u8> {
    if s.len() > 0 && s.last() == 13 {
        s.drop_last()
    } else {
        s
    }
}

/// The whole directive text, folded line by line from `lineno` onward.
/// Lines are separated by newline bytes; a trailing carriage return is
/// stripped from each.
pub open spec fn parse_from(s: Seq<u8>, lineno: int, st: MazeModel) -> Result<
    MazeModel,
    MazeParseError,
>
    decreases s.len(),
    via parse_from_dec
{
    if s.len() == 0 {
        Ok(st)
    } else {
        let i = first_at(s, 10);
        let line = if i == s.len() {
            strip_cr(s)
        } else {
            strip_cr(s.take(i))
        };
        match apply_line_spec(st, line, lineno) {
            Ok(st2) => if i == s.len() {
                Ok(st2)
            } else {
                parse_from(s.skip(i + 1), lineno + 1, st2)
            },
            Err(e) => Err(e),
        }
    }
}

#[via_fn]
proof fn parse_from_dec(s: Seq<u8>, lineno: int, st: MazeModel) {
    lemma_first_at(s, 10);
}

fn upper_copy(v: &Vec<u8>, lo: usize, hi: usize) -> (r: Vec<u8>)
    requires
        lo <= hi <= v@.len(),
    ensures
        r@ == upper_seq(v@.subrange(lo as int, hi as int)),
{
    let ghost s = v@.subrange(lo as int, hi as int);
    let mut out: Vec<u8> = Vec::new();
    let mut i: usize = lo;
    while i < hi
        invariant
            lo <= i <= hi <= v@.len(),
            out@.len() == i - lo,
            forall|k: int| 0 <= k < i - lo ==> out@[k] == upper_byte(v@[lo + k]),
        decreases hi - i,
    {
        let b = *v.get(i).unwrap();
        if 97 <= b && b <= 122 {
            out.push(b - 32);
        } else {
            out.push(b);
        }
        i += 1;
    }
    proof {
        assert(out@ =~= upper_seq(s));
    }
    out
}

fn do_sp(m: &mut Maze, v: &Vec<u8>, lo: usize, hi: usize, lineno: usize) -> (r: Result<
    (),
    MazeParseError,
>)
    requires
        lo <= hi <= v@.len(),
        model_wf(old(m).model()),
    ensures
        match r {
            Ok(_) => apply_sp(old(m).model(), v@.subrange(lo as int, hi as int), lineno as int)
                == Ok::<MazeModel, MazeParseError>(final(m).model()) && model_wf(final(m).model()),
            Err(e) => apply_sp(old(m).model(), v@.subrange(lo as int, hi as int), lineno as int)
                == Err::<MazeModel, MazeParseError>(e),
        },
{
    let ghost s = v@.subrange(lo as int, hi as int);
    let comma = find_byte(v, lo, hi, 44);
    proof {
        assert(first_at(s, 44) == comma - lo);
    }
    if comma == hi {
        return Ok(());
    }
    proof {
        assert(s.take(comma - lo) == v@.subrange(lo as int, comma as int));
        assert(s.skip(comma - lo + 1) == v@.subrange(comma + 1, hi as int));
    }
    let (xlo, xhi) = trim_range(v, lo, comma);
    match parse_fixed(v, xlo, xhi, CELL_COORD_LIMIT) {
        None => Err(MazeParseError { line: lineno, field: ParseField::StartX }),
        Some(x) => {
            match parse_fixed(v, comma + 1, hi, CELL_COORD_LIMIT) {
                None => Err(MazeParseError { line: lineno, field: ParseField::StartY }),
                Some(y) => {
                    m.start = Vec2Fx { x: x + 500, y: y + 500 };
                    Ok(())
                },
            }
        },
    }
}

fn do_sd(m: &mut Maze, v: &Vec<u8>, lo: usize, hi: usize, lineno: usize) -> (r: Result<
    (),
    MazeParseError,
>)
    requires
        lo <= hi <= v@.len(),
        model_wf(old(m).model()),
    ensures
        match r {
            Ok(_) => apply_sd(old(m).model(), v@.subrange(lo as int, hi as int), lineno as int)
                == Ok::<MazeModel, MazeParseError>(final(m).model()) && model_wf(final(m).model()),
            Err(e) => apply_sd(old(m).model(), v@.subrange(lo as int, hi as int), lineno as int)
                == Err::<MazeModel, MazeParseError>(e),
        },
{
    let ghost s = v@.subrange(lo as int, hi as int);
    let (dlo, dhi) = trim_range(v, lo, hi);
    let ghost t = trim_spec(s);
    let ghost d = upper_seq(t);
    if dhi - dlo == 1 {
        let b = *v.get(dlo).unwrap();
        let ub: u8 = if 97 <= b && b <= 122 {
            b - 32
        } else {
            b
        };
        proof {
            assert(t[0] == v@[dlo as int]);
            assert(d.len() == 1);
            assert(d[0] == upper_byte(t[0]));
            assert(d[0] == ub);
        }
        if ub == 76 {
            proof {
                assert(d =~= seq![76u8]);
            }
            m.start_direction = StartDirection::Left;
            Ok(())
        } else if ub == 85 {
            proof {
                assert(d =~= seq![85u8]);
                assert(!(d =~= seq![76u8]));
            }
            m.start_direction = StartDirection::Up;
            Ok(())
        } else if ub == 68 {
            proof {
                assert(d =~= seq![68u8]);
                assert(!(d =~= seq![76u8]));
                assert(!(d =~= seq![85u8]));
            }
            m.start_direction = StartDirection::Down;
            Ok(())
        } else if ub == 82 {
            proof {
                assert(d =~= seq![82u8]);
                assert(!(d =~= seq![76u8]));
                assert(!(d =~= seq![85u8]));
                assert(!(d =~= seq![68u8]));
            }
            m.start_direction = StartDirection::Right;
            Ok(())
        } else {
            proof {
                assert(!(d =~= seq![76u8]));
                assert(!(d =~= seq![85u8]));
                assert(!(d =~= seq![68u8]));
                assert(!(d =~= seq![82u8]));
            }
            Err(MazeParseError { line: lineno, field: ParseField::Direction })
        }
    } else {
        proof {
            assert(d.len() != 1);
            assert(!(d =~= seq![76u8]));
            assert(!(d =~= seq![85u8]));
            assert(!(d =~= seq![68u8]));
            assert(!(d =~= seq![82u8]));
        }
        Err(MazeParseError { line: lineno, field: ParseField::Direction })
    }
}

fn do_fr(m: &mut Maze, v: &Vec<u8>, lo: usize, hi: usize, lineno: usize) -> (r: Result<
    (),
    MazeParseError,
>)
    requires
        lo <= hi <= v@.len(),
        model_wf(old(m).model()),
    ensures
        match r {
            Ok(_) => apply_fr(old(m).model(), v@.subrange(lo as int, hi as int), lineno as int)
                == Ok::<MazeModel, MazeParseError>(final(m).model()) && model_wf(final(m).model()),
            Err(e) => apply_fr(old(m).model(), v@.subrange(lo as int, hi as int), lineno as int)
                == Err::<MazeModel, MazeParseError>(e),
        },
{
    let (flo, fhi) = trim_range(v, lo, hi);
    match parse_fixed(v, flo, fhi, FRICTION_LIMIT) {
        Some(f) => {
            if f >= 0 {
                m.friction = f;
                Ok(())
            } else {
                Err(MazeParseError { line: lineno, field: ParseField::Friction })
            }
        },
        None => Err(MazeParseError { line: lineno, field: ParseField::Friction }),
    }
}

fn do_fi(m: &mut Maze, v: &Vec<u8>, lo: usize, hi: usize, lineno: usize) -> (r: Result<
    (),
    MazeParseError,
>)
    requires
        lo <= hi <= v@.len(),
        model_wf(old(m).model()),
    ensures
        match r {
            Ok(_) => apply_fi(old(m).model(), v@.subrange(lo as int, hi as int), lineno as int)
                == Ok::<MazeModel, MazeParseError>(final(m).model()) && model_wf(final(m).model()),
            Err(e) => apply_fi(old(m).model(), v@.subrange(lo as int, hi as int), lineno as int)
                == Err::<MazeModel, MazeParseError>(e),
        },
{
    let ghost s = v@.subrange(lo as int, hi as int);
    let semi = find_byte(v, lo, hi, 59);
    proof {
        assert(first_at(s, 59) == semi - lo);
    }
    if semi == hi {
        return Ok(());
    }
    let ghost l = s.take(semi - lo);
    let ghost rr = s.skip(semi - lo + 1);
    proof {
        assert(l == v@.subrange(lo as int, semi as int));
        assert(rr == v@.subrange(semi + 1, hi as int));
    }
    let lc = find_byte(v, lo, semi, 44);
    proof {
        assert(first_at(l, 44) == lc - lo);
    }
    if lc == semi {
        return Err(MazeParseError { line: lineno, field: ParseField::FinishStart });
    }
    proof {
        assert(l.take(lc - lo) == v@.subrange(lo as int, lc as int));
        assert(l.skip(lc - lo + 1) == v@.subrange(lc + 1, semi as int));
    }
    let (alo, ahi) = trim_range(v, lo, lc);
    let x1 = match parse_fixed(v, alo, ahi, CELL_COORD_LIMIT) {
        Some(x) => x,
        None => {
            return Err(MazeParseError { line: lineno, field: ParseField::FinishStartX });
        },
    };
    let (blo, bhi) = trim_range(v, lc + 1, semi);
    let y1 = match parse_fixed(v, blo, bhi, CELL_COORD_LIMIT) {
        Some(y) => y,
        None => {
            return Err(MazeParseError { line: lineno, field: ParseField::FinishStartY });
        },
    };
    let rc = find_byte(v, semi + 1, hi, 44);
    proof {
        assert(first_at(rr, 44) == rc - (semi + 1));
    }
    if rc == hi {
        return Err(MazeParseError { line: lineno, field: ParseField::FinishEnd });
    }
    proof {
        assert(rr.take(rc - (semi + 1)) == v@.subrange(semi + 1, rc as int));
        assert(rr.skip(rc - (semi + 1) + 1) == v@.subrange(rc + 1, hi as int));
    }
    let (clo, chi) = trim_range(v, semi + 1, rc);
    let x2 = match parse_fixed(v, clo, chi, CELL_COORD_LIMIT) {
        Some(x) => x,
        None => {
            return Err(MazeParseError { line: lineno, field: ParseField::FinishEndX });
        },
    };
    let (elo, ehi) = trim_range(v, rc + 1, hi);
    let y2 = match parse_fixed(v, elo, ehi, CELL_COORD_LIMIT) {
        Some(y) => y,
        None => {
            return Err(MazeParseError { line: lineno, field: ParseField::FinishEndY });
        },
    };
    m.finish = Finish { start: Vec2Fx { x: x1, y: y1 }, end: Vec2Fx { x: x2, y: y2 } };
    Ok(())
}

fn do_range_token(
    m: &mut Maze,
    v: &Vec<u8>,
    lo: usize,
    hi: usize,
    fixed_c: i64,
    horiz: bool,
    lineno: usize,
) -> (r: Result<(), MazeParseError>)
    requires
        lo <= hi <= v@.len(),
        model_wf(old(m).model()),
        -CELL_COORD_LIMIT <= fixed_c <= CELL_COORD_LIMIT,
    ensures
        match r {
            Ok(_) => apply_range_token(
                old(m).model(),
                v@.subrange(lo as int, hi as int),
                fixed_c as int,
                horiz,
                lineno as int,
            ) == Ok::<MazeModel, MazeParseError>(final(m).model()) && model_wf(final(m).model()),
            Err(e) => apply_range_token(
                old(m).model(),
                v@.subrange(lo as int, hi as int),
                fixed_c as int,
                horiz,
                lineno as int,
            ) == Err::<MazeModel, MazeParseError>(e),
        },
{
    let ghost s = v@.subrange(lo as int, hi as int);
    let dash = find_byte(v, lo, hi, 45);
    proof {
        assert(first_at(s, 45) == dash - lo);
    }
    if dash == hi {
        return Ok(());
    }
    proof {
        assert(s.take(dash - lo) == v@.subrange(lo as int, dash as int));
        assert(s.skip(dash - lo + 1) == v@.subrange(dash + 1, hi as int));
    }
    let (alo, ahi) = trim_range(v, lo, dash);
    let mn = match parse_nat(v, alo, ahi, CELL_INDEX_LIMIT) {
        Some(n) => n,
        None => {
            return Err(MazeParseError { line: lineno, field: ParseField::RangeStart });
        },
    };
    let (blo, bhi) = trim_range(v, dash + 1, hi);
    let mx = match parse_nat(v, blo, bhi, CELL_INDEX_LIMIT) {
        Some(n) => n,
        None => {
            return Err(MazeParseError { line: lineno, field: ParseField::RangeEnd });
        },
    };
    let w = if horiz {
        Wall {
            start: Vec2Fx { x: mn * 1000, y: fixed_c },
            end: Vec2Fx { x: mx * 1000, y: fixed_c },
            orientation: Orientation::Horizontal,
        }
    } else {
        Wall {
            start: Vec2Fx { x: fixed_c, y: mn * 1000 },
            end: Vec2Fx { x: fixed_c, y: mx * 1000 },
            orientation: Orientation::Vertical,
        }
    };
    m.walls.push(w);
    proof {
        let mm = m.model();
        assert forall|i: int| 0 <= i < mm.walls.len() implies {
            &&& -CELL_COORD_LIMIT <= (#[trigger] mm.walls[i]).start.x <= CELL_COORD_LIMIT
            &&& -CELL_COORD_LIMIT <= mm.walls[i].start.y <= CELL_COORD_LIMIT
            &&& -CELL_COORD_LIMIT <= mm.walls[i].end.x <= CELL_COORD_LIMIT
            &&& -CELL_COORD_LIMIT <= mm.walls[i].end.y <= CELL_COORD_LIMIT
        } by {
            if i < mm.walls.len() - 1 {
                assert(mm.walls[i] == old(m).model().walls[i]);
            }
        }
    }
    Ok(())
}

fn do_walls(
    m: &mut Maze,
    v: &Vec<u8>,
    lo: usize,
    hi: usize,
    fixed_c: i64,
    horiz: bool,
    lineno: usize,
) -> (r: Result<(), MazeParseError>)
    requires
        lo <= hi <= v@.len(),
        model_wf(old(m).model()),
        -CELL_COORD_LIMIT <= fixed_c <= CELL_COORD_LIMIT,
    ensures
        match r {
            Ok(_) => apply_ranges(
                old(m).model(),
                v@.subrange(lo as int, hi as int),
                fixed_c as int,
                horiz,
                lineno as int,
            ) == Ok::<MazeModel, MazeParseError>(final(m).model()) && model_wf(final(m).model()),
            Err(e) => apply_ranges(
                old(m).model(),
                v@.subrange(lo as int, hi as int),
                fixed_c as int,
                horiz,
                lineno as int,
            ) == Err::<MazeModel, MazeParseError>(e),
        },
{
    let ghost st0 = old(m).model();
    let ghost full = v@.subrange(lo as int, hi as int);
    let mut p: usize = lo;
    loop
        invariant
            lo <= p <= hi <= v@.len(),
            model_wf(m.model()),
            -CELL_COORD_LIMIT <= fixed_c <= CELL_COORD_LIMIT,
            st0 == old(m).model(),
            full == v@.subrange(lo as int, hi as int),
            apply_ranges(st0, full, fixed_c as int, horiz, lineno as int) == apply_ranges(
                m.model(),
                v@.subrange(p as int, hi as int),
                fixed_c as int,
                horiz,
                lineno as int,
            ),
        decreases hi - p,
    {
        let ghost rest = v@.subrange(p as int, hi as int);
        let ghost cur = m.model();
        let comma = find_byte(v, p, hi, 44);
        proof {
            assert(first_at(rest, 44) == comma - p);
            assert(rest.take(comma - p) == v@.subrange(p as int, comma as int));
            if comma < hi {
                assert(rest.skip(comma - p + 1) == v@.subrange(comma + 1, hi as int));
            }
        }
        match do_range_token(m, v, p, comma, fixed_c, horiz, lineno) {
            Ok(_) => {},
            Err(e) => {
                return Err(e);
            },
        }
        if comma == hi {
            proof {
                assert(v@.subrange(p as int, comma as int) == rest);
            }
            return Ok(());
        }
        p = comma + 1;
    }
}

fn apply_line(m: &mut Maze, v: &Vec<u8>, lo: usize, hi: usize, lineno: usize) -> (r: Result<
    (),
    MazeParseError,
>)
    requires
        lo <= hi <= v@.len(),
        model_wf(old(m).model()),
    ensures
        match r {
            Ok(_) => apply_line_spec(
                old(m).model(),
                v@.subrange(lo as int, hi as int),
                lineno as int,
            ) == Ok::<MazeModel, MazeParseError>(final(m).model()) && model_wf(final(m).model()),
            Err(e) => apply_line_spec(
                old(m).model(),
                v@.subrange(lo as int, hi as int),
                lineno as int,
            ) == Err::<MazeModel, MazeParseError>(e),
        },
{
    let ghost line = v@.subrange(lo as int, hi as int);
    let (tlo, thi) = trim_range(v, lo, hi);
    if tlo < thi {
        let tb = *v.get(tlo).unwrap();
        proof {
            assert(trim_spec(line)[0] == v@[tlo as int]);
        }
        if tb == 35 {
            return Ok(());
        }
    }
    let colon = find_byte(v, lo, hi, 58);
    proof {
        assert(first_at(line, 58) == colon - lo);
        if tlo == thi {
            assert(trim_spec(line).len() == 0);
        }
    }
    if colon == hi {
        return Ok(());
    }
    proof {
        assert(line.take(colon - lo) == v@.subrange(lo as int, colon as int));
        assert(line.skip(colon - lo + 1) == v@.subrange(colon + 1, hi as int));
    }
    let (klo, khi) = trim_range(v, lo, colon);
    let kbuf = upper_copy(v, klo, khi);
    let ghost key = upper_seq(trim_spec(line.take(colon - lo)));
    proof {
        assert(kbuf@ == key);
    }
    let klen = kbuf.len();
    if klen == 1 && *kbuf.get(0).unwrap() == 35 {
        proof {
            assert(key =~= seq![35u8]);
        }
        Ok(())
    } else if klen == 2 && *kbuf.get(0).unwrap() == 83 && *kbuf.get(1).unwrap() == 80 {
        proof {
            assert(key =~= seq![83u8, 80u8]);
            assert(!(key =~= seq![35u8]));
        }
        do_sp(m, v, colon + 1, hi, lineno)
    } else if klen == 2 && *kbuf.get(0).unwrap() == 83 && *kbuf.get(1).unwrap() == 68 {
        proof {
            assert(key =~= seq![83u8, 68u8]);
            assert(!(key =~= seq![35u8]));
            assert(!(key =~= seq![83u8, 80u8]));
        }
        do_sd(m, v, colon + 1, hi, lineno)
    } else if klen == 2 && *kbuf.get(0).unwrap() == 70 && *kbuf.get(1).unwrap() == 73 {
        proof {
            assert(key =~= seq![70u8, 73u8]);
            assert(!(key =~= seq![35u8]));
            assert(!(key =~= seq![83u8, 80u8]));
            assert(!(key =~= seq![83u8, 68u8]));
        }
        do_fi(m, v, colon + 1, hi, lineno)
    } else if klen == 2 && *kbuf.get(0).unwrap() == 70 && *kbuf.get(1).unwrap() == 82 {
        proof {
            assert(key =~= seq![70u8, 82u8]);
            assert(!(key =~= seq![35u8]));
            assert(!(key =~= seq![83u8, 80u8]));
            assert(!(key =~= seq![83u8, 68u8]));
            assert(!(key =~= seq![70u8, 73u8]));
        }
        do_fr(m, v, colon + 1, hi, lineno)
    } else if klen >= 2 && *kbuf.get(0).unwrap() == 46 && (*kbuf.get(1).unwrap() == 82 || *kbuf.get(
        1,
    ).unwrap() == 67) {
        let horiz = *kbuf.get(1).unwrap() == 82;
        proof {
            assert(!(key =~= seq![35u8]));
            assert(!(key =~= seq![83u8, 80u8]));
            assert(!(key =~= seq![83u8, 68u8]));
            assert(!(key =~= seq![70u8, 73u8]));
            assert(!(key =~= seq![70u8, 82u8]));
        }
        let c = match parse_fixed(&kbuf, 2, klen, CELL_COORD_LIMIT) {
            Some(c) => c,
            None => {
                proof {
                    assert(kbuf@.subrange(2, klen as int) == key.skip(2));
                }
                return Err(
                    MazeParseError {
                        line: lineno,
                        field: if horiz {
                            ParseField::RowNumber
                        } else {
                            ParseField::ColNumber
                        },
                    },
                );
            },
        };
        proof {
            assert(kbuf@.subrange(2, klen as int) == key.skip(2));
        }
        do_walls(m, v, colon + 1, hi, c, horiz, lineno)
    } else {
        proof {
            assert(!(key =~= seq![35u8]));
            assert(!(key =~= seq![83u8, 80u8]));
            assert(!(key =~= seq![83u8, 68u8]));
            assert(!(key =~= seq![70u8, 73u8]));
            assert(!(key =~= seq![70u8, 82u8]));
        }
        Err(MazeParseError { line: lineno, field: ParseField::UnknownKey })
    }
}

impl Maze {
    /// Parse a maze from its newline-separated directive text. The result
    /// is exactly the line-by-line fold of the grammar over the text's
    /// bytes; on failure the error names the first offending line and
    /// field, and no partial maze is returned.
    pub fn from_str(s: &str) -> (r: Result<Maze, MazeParseError>)
        requires
            s.spec_bytes().len() < usize::MAX,
        ensures
            match r {
                Ok(m) => parse_from(s.spec_bytes(), 1, init_model()) == Ok::<
                    MazeModel,
                    MazeParseError,
                >(m.model()) && model_wf(m.model()),
                Err(e) => parse_from(s.spec_bytes(), 1, init_model()) == Err::<
                    MazeModel,
                    MazeParseError,
                >(e),
            },
    {
        let v = s.as_bytes_vec();
        let mut m = Maze {
            walls: Vec::new(),
            friction: 1000,
            start: Vec2Fx { x: 0, y: 0 },
            start_direction: StartDirection::Right,
            finish: Finish { start: Vec2Fx { x: 0, y: 0 }, end: Vec2Fx { x: 0, y: 0 } },
        };
        proof {
            assert(m.model() =~= init_model());
            assert(v@.skip(0) == v@);
        }
        let mut pos: usize = 0;
        let mut lineno: usize = 1;
        while pos < v.len()
            invariant
                pos <= v@.len() < usize::MAX,
                v@ == s.spec_bytes(),
                1 <= lineno <= pos + 1,
                model_wf(m.model()),
                parse_from(s.spec_bytes(), 1, init_model()) == parse_from(
                    v@.skip(pos as int),
                    lineno as int,
                    m.model(),
                ),
            decreases v@.len() - pos,
        {
            let ghost rest = v@.skip(pos as int);
            let ghost cur = m.model();
            let nl = find_byte(&v, pos, v.len(), 10);
            proof {
                assert(v@.subrange(pos as int, v@.len() as int) == rest);
                assert(first_at(rest, 10) == nl - pos);
            }
            let mut e: usize = nl;
            if nl > pos && *v.get(nl - 1).unwrap() == 13 {
                e = nl - 1;
            }
            proof {
                let taken = if nl - pos == rest.len() {
                    rest
                } else {
                    rest.take(nl - pos)
                };
                assert(rest.take(nl - pos) == v@.subrange(pos as int, nl as int));
                if nl - pos == rest.len() {
                    assert(rest.take(nl - pos) == rest);
                }
                if nl > pos && v@[nl - 1] == 13 {
                    assert(taken.len() > 0 && taken.last() == 13);
                    assert(strip_cr(taken) == taken.drop_last());
                    assert(taken.drop_last() =~= v@.subrange(pos as int, e as int));
                } else {
                    assert(strip_cr(taken) == taken);
                }
                assert(strip_cr(taken) == v@.subrange(pos as int, e as int));
            }
            match apply_line(&mut m, &v, pos, e, lineno) {
                Ok(_) => {},
                Err(er) => {
                    return Err(er);
                },
            }
            if nl == v.len() {
                pos = nl;
                proof {
                    assert(v@.skip(pos as int).len() == 0);
                }
            } else {
                proof {
                    assert(rest.skip(nl - pos + 1) =~= v@.skip(nl + 1));
                }
                pos = nl + 1;
                lineno = lineno + 1;
            }
        }
        proof {
            assert(v@.skip(pos as int).len() == 0);
        }
        Ok(m)
    }
}

} // verus!
