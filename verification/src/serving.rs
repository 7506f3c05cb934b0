//! Serving-size normalization: a dedicated quantity field wins; otherwise
//! the quantity is read from the leading numeral run of the free-text size
//! field, and the unit is matched independently and case-insensitively
//! against a small closed vocabulary anywhere in that text.

use vstd::prelude::*;
use vstd::string::StringSliceAdditionalSpecFns;
use crate::textutil::{is_alnum, is_digit, lower_bytes, match_at, str_bytes, to_lower};
use crate::num::{parse_number, parse_number_spec, Decimal};

verus! {

/// Characters a numeral run is made of: digits, comma, dot.
pub open spec fn is_numch(b: u8) -> bool {
    is_digit(b) || b == 44 || b == 46
}

/// Word characters, for word-boundary tests.
pub open spec fn is_word(b: u8) -> bool {
    is_alnum(b) || b == 95
}

/// First index at or after `i` whose byte satisfies `is_numch`, or the
/// length when none does.
pub open spec fn first_numch(s: Seq<u8>, i: int) -> int
    decreases s.len() - i,
{
    if i < 0 || i >= s.len() {
        s.len() as int
    } else if is_numch(s[i]) {
        i
    } else {
        first_numch(s, i + 1)
    }
}

/// First index at or after `i` whose byte is not a numeral character, or
/// the length.
pub open spec fn first_non_numch(s: Seq<u8>, i: int) -> int
    decreases s.len() - i,
{
    if i < 0 || i >= s.len() {
        s.len() as int
    } else if !is_numch(s[i]) {
        i
    } else {
        first_non_numch(s, i + 1)
    }
}

/// The quantity hidden in free text: the first maximal numeral run,
/// parsed as a number; absent when there is no run or it does not parse.
pub open spec fn extract_qty_spec(s: Seq<u8>) -> Option<Decimal> {
    let st = first_numch(s, 0);
    if st == s.len() {
        None
    } else {
        let en = first_non_numch(s, st);
        parse_number_spec(s.subrange(st, en))
    }
}

/// The unit word tried at one position of the lowercased text, in the
/// vocabulary's order, with a word boundary on each side.
pub open spec fn word_at(s: Seq<u8>, i: int, w: Seq<u8>) -> bool {
    &&& match_at(s, w, i)
    &&& (i == 0 || !is_word(s[i - 1]))
    &&& (i + w.len() == s.len() || !is_word(s[i + w.len()]))
}

pub open spec fn unit_at(s: Seq<u8>, i: int) -> Option<Seq<u8>> {
    if word_at(s, i, "ml".spec_bytes()) {
        Some("ml".spec_bytes())
    } else if word_at(s, i, "milliliters".spec_bytes()) {
        Some("milliliters".spec_bytes())
    } else if word_at(s, i, "milliliter".spec_bytes()) {
        Some("milliliter".spec_bytes())
    } else if word_at(s, i, "g".spec_bytes()) {
        Some("g".spec_bytes())
    } else if word_at(s, i, "grams".spec_bytes()) {
        Some("grams".spec_bytes())
    } else if word_at(s, i, "gram".spec_bytes()) {
        Some("gram".spec_bytes())
    } else {
        None
    }
}

/// Leftmost unit-vocabulary match.
pub open spec fn find_unit_from(s: Seq<u8>, i: int) -> Option<Seq<u8>>
    decreases s.len() - i,
{
    if i < 0 || i >= s.len() {
        None
    } else {
        match unit_at(s, i) {
            Some(u) => Some(u),
            None => find_unit_from(s, i + 1),
        }
    }
}

/// The unit of a size text: the vocabulary is matched case-insensitively,
/// so the text is lowercased first; the unit returned is the lowercase
/// word.
pub open spec fn find_unit_spec(s: Seq<u8>) -> Option<Seq<u8>> {
    find_unit_from(lower_bytes(s), 0)
}

/// Executable word test at one position.
fn word_at_exec(s: &[u8], i: usize, w: &[u8]) -> (r: bool)
    requires
        i <= s@.len(),
    ensures
        r == word_at(s@, i as int, w@),
{
    let n = s.len();
    let m = w.len();
    if m > n - i {
        return false;
    }
    if !crate::textutil::check_match_at(s, w, i) {
        return false;
    }
    if i > 0 {
        let b = s[i - 1];
        if (65 <= b && b <= 90) || (97 <= b && b <= 122) || (48 <= b && b <= 57) || b == 95 {
            return false;
        }
    }
    if i + m < n {
        let b = s[i + m];
        if (65 <= b && b <= 90) || (97 <= b && b <= 122) || (48 <= b && b <= 57) || b == 95 {
            return false;
        }
    }
    true
}

/// Executable unit test at one position.
fn unit_at_exec(s: &[u8], i: usize) -> (r: Option<Vec<u8>>)
    requires
        i <= s@.len(),
    ensures
        match r {
            Some(u) => unit_at(s@, i as int) == Some(u@),
            None => unit_at(s@, i as int) is None,
        },
{
    let ml = str_bytes("ml");
    if word_at_exec(s, i, ml.as_slice()) {
        return Some(ml);
    }
    let mls = str_bytes("milliliters");
    if word_at_exec(s, i, mls.as_slice()) {
        return Some(mls);
    }
    let mll = str_bytes("milliliter");
    if word_at_exec(s, i, mll.as_slice()) {
        return Some(mll);
    }
    let g = str_bytes("g");
    if word_at_exec(s, i, g.as_slice()) {
        return Some(g);
    }
    let gs = str_bytes("grams");
    if word_at_exec(s, i, gs.as_slice()) {
        return Some(gs);
    }
    let gr = str_bytes("gram");
    if word_at_exec(s, i, gr.as_slice()) {
        return Some(gr);
    }
    None
}

/// Find the leftmost unit word in the text, case-insensitively.
pub fn find_unit(s: &[u8]) -> (r: Option<Vec<u8>>)
    ensures
        match r {
            Some(u) => find_unit_spec(s@) == Some(u@),
            None => find_unit_spec(s@) is None,
        },
{
    let low = to_lower(s);
    let n = low.len();
    let mut i: usize = 0;
    while i < n
        invariant
            low@ == lower_bytes(s@),
            n == low@.len(),
            0 <= i <= n,
            find_unit_spec(s@) == find_unit_from(low@, i as int),
        decreases n - i,
    {
        let u = unit_at_exec(low.as_slice(), i);
        match u {
            Some(u) => {
                return Some(u);
            },
            None => {},
        }
        i += 1;
    }
    None
}

/// Extract the quantity from the first numeral run of the free text.
pub fn extract_quantity(s: &[u8]) -> (r: Option<Decimal>)
    ensures
        r == extract_qty_spec(s@),
        crate::num::dec_ok(r),
{
    let n = s.len();
    let mut st: usize = 0;
    while st < n && !(48 <= s[st] && s[st] <= 57 || s[st] == 44 || s[st] == 46)
        invariant
            n == s@.len(),
            0 <= st <= n,
            first_numch(s@, 0) == first_numch(s@, st as int),
        decreases n - st,
    {
        st += 1;
    }
    if st == n {
        return None;
    }
    let mut en: usize = st;
    while en < n && (48 <= s[en] && s[en] <= 57 || s[en] == 44 || s[en] == 46)
        invariant
            n == s@.len(),
            st <= en <= n,
            first_non_numch(s@, st as int) == first_non_numch(s@, en as int),
        decreases n - en,
    {
        en += 1;
    }
    let mut run: Vec<u8> = Vec::new();
    let mut k: usize = st;
    while k < en
        invariant
            st <= k <= en <= n == s@.len(),
            run@ =~= s@.subrange(st as int, k as int),
        decreases en - k,
    {
        run.push(s[k]);
        proof {
            assert(s@.subrange(st as int, k + 1) =~= s@.subrange(st as int, k as int).push(
                s@[k as int],
            ));
        }
        k += 1;
    }
    proof {
        assert(first_numch(s@, 0) == st);
        assert(first_non_numch(s@, st as int) == en);
    }
    let r = parse_number(run.as_slice());
    proof {
        crate::num::lemma_parse_scale(run@);
    }
    r
}

/// The serving values of one row.
pub struct ServingInfo {
    pub raw_size: Option<Decimal>,
    pub quantity: Option<Decimal>,
    pub unit: Option<Vec<u8>>,
}

/// What `parse_serving` computes from the two cells.
#[verifier::opaque]
pub open spec fn serving_spec(size: Option<Seq<u8>>, qty: Option<Seq<u8>>) -> (
    Option<Decimal>,
    Option<Decimal>,
    Option<Seq<u8>>,
) {
    let raw_size = match size {
        Some(s) => parse_number_spec(s),
        None => None,
    };
    let direct = match qty {
        Some(q) => parse_number_spec(q),
        None => None,
    };
    let quantity = match direct {
        Some(d) => Some(d),
        None => match size {
            Some(s) => extract_qty_spec(s),
            None => None,
        },
    };
    let unit = match size {
        Some(s) => find_unit_spec(s),
        None => None,
    };
    (raw_size, quantity, unit)
}

/// Parse the serving fields: the numeric size text, the quantity (from
/// its own field, else from the leading numeral of the size text), and
/// the unit word found anywhere in the size text.
pub fn parse_serving(size_cell: &Option<Vec<u8>>, qty_cell: &Option<Vec<u8>>) -> (r: ServingInfo)
    ensures
        ({
            let sv = match *size_cell {
                Some(ref s) => Some(s@),
                None => None,
            };
            let qv = match *qty_cell {
                Some(ref q) => Some(q@),
                None => None,
            };
            let spec = serving_spec(sv, qv);
            &&& r.raw_size == spec.0
            &&& r.quantity == spec.1
            &&& (match r.unit {
                Some(ref u) => spec.2 == Some(u@),
                None => spec.2 is None,
            })
        }),
        crate::num::dec_ok(r.raw_size),
        crate::num::dec_ok(r.quantity),
{
    proof {
        reveal(serving_spec);
    }
    let raw_size = match size_cell {
        Some(s) => {
            let v = parse_number(s.as_slice());
            proof {
                crate::num::lemma_parse_scale(s@);
            }
            v
        },
        None => None,
    };
    let direct = match qty_cell {
        Some(q) => {
            let v = parse_number(q.as_slice());
            proof {
                crate::num::lemma_parse_scale(q@);
            }
            v
        },
        None => None,
    };
    let quantity = match direct {
        Some(d) => Some(d),
        None => match size_cell {
            Some(s) => extract_quantity(s.as_slice()),
            None => None,
        },
    };
    let unit = match size_cell {
        Some(s) => find_unit(s.as_slice()),
        None => None,
    };
    ServingInfo { raw_size, quantity, unit }
}

} // verus!
