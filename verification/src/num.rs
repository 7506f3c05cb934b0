//! Exact decimal numbers and locale-tolerant numeric parsing.
//!
//! A value is parsed from a byte string after removing every ASCII space and
//! treating a comma as a decimal dot.  The accepted grammar is an optional
//! sign, digits with at most one dot and at least one digit, and an
//! optional exponent (`e` or `E`, an optional sign, digits).  The exponent
//! is folded away: the parsed value is kept exactly as a sign, an integer
//! mantissa and a decimal scale, denoting `mantissa / 10^scale`, negated
//! when `neg`.  Two machine limits apply: a value whose folded mantissa
//! does not fit in a `u64`, or whose exponent digits or folded scale
//! exceed the machine word, is rejected.

use vstd::prelude::*;
use crate::textutil::is_digit;

verus! {

/// An exact decimal number: `(-1)^neg * mantissa / 10^scale`.
#[derive(Clone, Copy, Debug, PartialEq, Eq, Structural)]
pub struct Decimal {
    pub neg: bool,
    pub mantissa: u64,
    pub scale: usize,
}

/// Strip ASCII spaces and turn commas into dots.
pub open spec fn norm_num(s: Seq<u8>) -> Seq<u8>
    decreases s.len(),
{
    if s.len() == 0 {
        Seq::empty()
    } else {
        let p = norm_num(s.drop_last());
        let b = s.last();
        if b == 32 {
            p
        } else if b == 44 {
            p.push(46)
        } else {
            p.push(b)
        }
    }
}

/// Numeric value of a digit string, most significant digit first.
pub open spec fn digits_val(s: Seq<u8>) -> int
    decreases s.len(),
{
    if s.len() == 0 {
        0
    } else {
        digits_val(s.drop_last()) * 10 + (s.last() - 48)
    }
}

/// Every byte is an ASCII digit.
pub open spec fn all_digits(s: Seq<u8>) -> bool {
    forall|i: int| 0 <= i < s.len() ==> is_digit(s[i])
}

/// Split at the first dot: `(before, after)`; when no dot occurs the whole
/// string is `before` and `after` is empty.
pub open spec fn split_at_dot(s: Seq<u8>) -> (Seq<u8>, Seq<u8>)
    decreases s.len(),
{
    if s.len() == 0 {
        (Seq::empty(), Seq::empty())
    } else if s[0] == 46 {
        (Seq::empty(), s.drop_first())
    } else {
        let r = split_at_dot(s.drop_first());
        (seq![s[0]] + r.0, r.1)
    }
}

/// Sign handling: a leading `+` or `-` is removed, `-` recorded.
pub open spec fn sign_split(t: Seq<u8>) -> (bool, Seq<u8>) {
    if t.len() > 0 && (t[0] == 43 || t[0] == 45) {
        (t[0] == 45, t.drop_first())
    } else {
        (false, t)
    }
}

pub open spec fn u64_bound() -> int {
    0x1_0000_0000_0000_0000
}

/// Ten to the `n`.
pub open spec fn pow10(n: nat) -> int
    decreases n,
{
    if n == 0 {
        1
    } else {
        10 * pow10((n - 1) as nat)
    }
}

/// Index of the first exponent marker (`e` or `E`), or the length.
pub open spec fn first_exp(s: Seq<u8>) -> int
    decreases s.len(),
{
    if s.len() == 0 {
        0
    } else if s[0] == 101 || s[0] == 69 {
        0
    } else {
        1 + first_exp(s.drop_first())
    }
}

pub proof fn lemma_first_exp(s: Seq<u8>)
    ensures
        0 <= first_exp(s) <= s.len(),
        first_exp(s) < s.len() ==> s[first_exp(s)] == 101 || s[first_exp(s)] == 69,
        forall|j: int| 0 <= j < first_exp(s) ==> s[j] != 101 && s[j] != 69,
    decreases s.len(),
{
    if s.len() > 0 && s[0] != 101 && s[0] != 69 {
        lemma_first_exp(s.drop_first());
        assert(forall|j: int| 1 <= j < first_exp(s) ==> s[j] == s.drop_first()[j - 1]);
    }
}

/// The meaning of `parse_number`: after normalization and the sign, the
/// body splits at the first exponent marker; the mantissa part must be
/// digits with at most one dot and at least one digit, the exponent part
/// (when present) an optionally signed digit string.  The exponent is
/// folded into the mantissa and scale.  `None` exactly on malformed
/// input, or when the folded mantissa does not fit in a `u64`, or when
/// the exponent digits or the folded scale exceed the machine word.
#[verifier::opaque]
pub open spec fn parse_number_spec(s: Seq<u8>) -> Option<Decimal> {
    let t = norm_num(s);
    let su = sign_split(t);
    let u = su.1;
    let fe = first_exp(u);
    let m = u.subrange(0, fe);
    let ipfp = split_at_dot(m);
    let ds = ipfp.0 + ipfp.1;
    let es = sign_split(
        if fe < u.len() {
            u.subrange(fe + 1, u.len() as int)
        } else {
            Seq::empty()
        },
    );
    let exp_ok = fe == u.len() || (all_digits(es.1) && es.1.len() >= 1 && digits_val(es.1)
        < u64_bound());
    let ev: int = if fe == u.len() || es.0 {
        if fe == u.len() {
            0
        } else {
            -digits_val(es.1)
        }
    } else {
        digits_val(es.1)
    };
    if all_digits(ds) && ds.len() >= 1 && digits_val(ds) < u64_bound() && exp_ok {
        let net = ev - ipfp.1.len();
        if net >= 0 {
            let mv = digits_val(ds) * pow10(net as nat);
            if mv < u64_bound() {
                Some(Decimal { neg: su.0, mantissa: mv as u64, scale: 0 })
            } else {
                None
            }
        } else {
            if -net < usize::MAX {
                Some(
                    Decimal { neg: su.0, mantissa: digits_val(ds) as u64, scale: (-net) as usize },
                )
            } else {
                None
            }
        }
    } else {
        None
    }
}

pub proof fn lemma_pow10_pos(n: nat)
    ensures
        pow10(n) >= 1,
    decreases n,
{
    if n > 0 {
        lemma_pow10_pos((n - 1) as nat);
    }
}

proof fn lemma_pow10_mono(a: nat, b: nat)
    requires
        a <= b,
    ensures
        pow10(a) <= pow10(b),
    decreases b,
{
    lemma_pow10_pos(a);
    if a < b {
        lemma_pow10_mono(a, (b - 1) as nat);
        lemma_pow10_pos((b - 1) as nat);
    }
}

pub broadcast proof fn lemma_digits_val_nonneg(s: Seq<u8>)
    requires
        all_digits(s),
    ensures
        #[trigger] digits_val(s) >= 0,
    decreases s.len(),
{
    if s.len() > 0 {
        assert(all_digits(s.drop_last()));
        lemma_digits_val_nonneg(s.drop_last());
    }
}

/// Characterization of `split_at_dot`: `before` is the dot-free prefix and
/// `after` is everything past the first dot.
pub proof fn lemma_split_at_dot(u: Seq<u8>)
    ensures
        ({
            let r = split_at_dot(u);
            &&& r.0.len() <= u.len()
            &&& r.0 == u.subrange(0, r.0.len() as int)
            &&& forall|j: int| 0 <= j < r.0.len() ==> u[j] != 46
            &&& r.0.len() == u.len() ==> r.1 == Seq::<u8>::empty()
            &&& r.0.len() < u.len() ==> u[r.0.len() as int] == 46 && r.1 == u.subrange(
                r.0.len() as int + 1,
                u.len() as int,
            )
        }),
    decreases u.len(),
{
    let r = split_at_dot(u);
    if u.len() == 0 {
        assert(r.0 =~= u.subrange(0, 0));
    } else if u[0] == 46 {
        assert(r.0 =~= u.subrange(0, 0));
        assert(r.1 =~= u.subrange(1, u.len() as int));
    } else {
        let v = u.drop_first();
        lemma_split_at_dot(v);
        let rv = split_at_dot(v);
        assert(r.0 =~= u.subrange(0, rv.0.len() as int + 1)) by {
            assert(rv.0 == v.subrange(0, rv.0.len() as int));
            assert(forall|j: int| 0 <= j < r.0.len() ==> r.0[j] == u[j]);
        }
        assert forall|j: int| 0 <= j < r.0.len() implies u[j] != 46 by {
            if j >= 1 {
                assert(u[j] == v[j - 1]);
                assert(rv.0.len() <= v.len());
            }
        }
        if rv.0.len() < v.len() {
            assert(r.1 =~= u.subrange(r.0.len() as int + 1, u.len() as int));
        }
    }
}

/// Appending one more digit multiplies the value by ten and adds the digit.
proof fn lemma_digits_val_push(s: Seq<u8>, b: u8)
    ensures
        digits_val(s.push(b)) == digits_val(s) * 10 + (b - 48),
{
    assert(s.push(b).drop_last() =~= s);
    assert(s.push(b).last() == b);
}

/// Read a mantissa body (digits with at most one dot): its value and its
/// fraction length, or `None` when the shape is wrong or the value does
/// not fit in a `u64`.
#[verifier::rlimit(100)]
#[verifier::spinoff_prover]
fn parse_mantissa(m: &[u8]) -> (r: Option<(u64, usize)>)
    ensures
        ({
            let ipfp = split_at_dot(m@);
            let ds = ipfp.0 + ipfp.1;
            match r {
                Some(p) => {
                    &&& all_digits(ds)
                    &&& ds.len() >= 1
                    &&& digits_val(ds) < u64_bound()
                    &&& p.0 == digits_val(ds)
                    &&& p.1 == ipfp.1.len()
                    &&& p.1 <= m@.len()
                    &&& (p.1 > 0 ==> p.1 < m@.len())
                },
                None => !(all_digits(ds) && ds.len() >= 1 && digits_val(ds) < u64_bound()),
            }
        }),
{
    let n = m.len();
    let mut found_dot = false;
    let mut second_dot = false;
    let mut bad = false;
    let mut over = false;
    let mut d: usize = 0;
    let mut digit_cnt: usize = 0;
    let mut mant: u64 = 0;
    let ghost mut dsg: Seq<u8> = Seq::empty();
    let mut j: usize = 0;
    while j < n
        invariant
            0 <= j <= n == m@.len(),
            found_dot ==> 0 <= d < j && m@[d as int] == 46 && forall|k: int|
                0 <= k < d ==> m@[k] != 46,
            !found_dot ==> forall|k: int| 0 <= k < j ==> m@[k] != 46,
            second_dot ==> found_dot && exists|k: int| d < k < j && m@[k] == 46,
            !second_dot && found_dot ==> forall|k: int| d < k < j ==> m@[k] != 46,
            bad ==> exists|k: int| 0 <= k < j && !is_digit(m@[k]) && m@[k] != 46,
            !bad ==> forall|k: int| 0 <= k < j ==> is_digit(m@[k]) || m@[k] == 46,
            dsg.len() == digit_cnt <= j,
            all_digits(dsg),
            !bad ==> dsg =~= m@.subrange(0, j as int).filter(|b: u8| b != 46),
            !over ==> mant == digits_val(dsg),
            over ==> digits_val(dsg) >= u64_bound(),
        decreases n - j,
    {
        let b = m[j];
        let ghost w_old = m@.subrange(0, j as int);
        if b == 46 {
            if found_dot {
                second_dot = true;
            } else {
                found_dot = true;
                d = j;
            }
        } else if 48 <= b && b <= 57 {
            proof {
                lemma_digits_val_push(dsg, b);
                lemma_digits_val_nonneg(dsg);
            }
            if !over {
                let m10 = mant.checked_mul(10);
                match m10 {
                    Some(m2) => {
                        let ma = m2.checked_add((b - 48) as u64);
                        match ma {
                            Some(m3) => {
                                mant = m3;
                            },
                            None => {
                                over = true;
                            },
                        }
                    },
                    None => {
                        over = true;
                        proof {
                            assert(digits_val(dsg.push(b)) >= u64_bound());
                        }
                    },
                }
            }
            proof {
                dsg = dsg.push(b);
            }
            digit_cnt += 1;
        } else {
            bad = true;
        }
        proof {
            let w_new = m@.subrange(0, j + 1);
            assert(w_new.drop_last() =~= w_old);
            assert(w_new.last() == m@[j as int]);
            if !bad {
                reveal_with_fuel(Seq::filter, 2);
                assert(w_new.filter(|b: u8| b != 46) == if w_new.last() != 46 {
                    w_old.filter(|b: u8| b != 46).push(w_new.last())
                } else {
                    w_old.filter(|b: u8| b != 46)
                });
            }
        }
        j += 1;
    }
    proof {
        assert(m@.subrange(0, n as int) =~= m@);
        lemma_split_at_dot(m@);
    }
    let ghost ip = split_at_dot(m@).0;
    let ghost fp = split_at_dot(m@).1;
    let ghost ds = ip + fp;

    if bad || second_dot {
        proof {
            // Some byte of the body is neither a digit nor the single
            // allowed dot, so `ds` has a non-digit entry.
            if bad {
                let k = choose|k: int| 0 <= k < n && !is_digit(m@[k]) && m@[k] != 46;
                if k < ip.len() {
                    assert(ds[k] == m@[k]);
                    assert(!is_digit(ds[k]));
                } else {
                    assert(ip.len() < m@.len());
                    assert(m@[ip.len() as int] == 46);
                    assert(k != ip.len());
                    assert(ds[k - 1] == fp[k - 1 - ip.len()]);
                    assert(fp[k - 1 - ip.len()] == m@[k]);
                    assert(!is_digit(ds[k - 1]));
                }
            } else {
                let k = choose|k: int| d < k < n && m@[k] == 46;
                assert(ip.len() == d) by {
                    assert(m@[d as int] == 46);
                    if ip.len() < d {
                        assert(m@[ip.len() as int] == 46);
                    }
                }
                assert(fp[k - 1 - ip.len()] == m@[k]);
                assert(!is_digit(ds[k - 1]));
            }
            assert(!all_digits(ds));
        }
        return None;
    }
    // No bad byte and at most one dot: the digit string is `ds`.
    proof {
        if found_dot {
            assert(ip.len() == d) by {
                assert(m@[d as int] == 46);
                if ip.len() < d {
                    assert(m@[ip.len() as int] == 46);
                }
            }
        } else {
            assert(ip.len() == m@.len()) by {
                if ip.len() < m@.len() {
                    assert(m@[ip.len() as int] == 46);
                }
            }
        }
        assert(all_digits(ds)) by {
            assert(forall|k: int| 0 <= k < ip.len() ==> ip[k] == m@[k]);
            assert(forall|k: int| 0 <= k < fp.len() ==> fp[k] == m@[ip.len() + 1 + k]);
        }
        // The filtered scan sequence equals `ds`.
        assert(dsg =~= ds) by {
            lemma_filter_split(m@, ip.len() as int);
        }
    }
    if digit_cnt == 0 {
        proof {
            assert(ds.len() == 0);
        }
        return None;
    }
    if over {
        proof {
            assert(digits_val(ds) >= u64_bound());
        }
        return None;
    }
    let fraclen = if found_dot {
        n - d - 1
    } else {
        0
    };
    proof {
        if found_dot {
            assert(fp.len() == n - d - 1);
        } else {
            assert(fp.len() == 0);
        }
        assert(digits_val(ds) < u64_bound());
    }
    Some((mant, fraclen))
}

/// Read an exponent part (optional sign, digits): its sign and value, or
/// `None` when the shape is wrong or the digits exceed a `u64`.
fn parse_exponent(e: &[u8]) -> (r: Option<(bool, u64)>)
    ensures
        ({
            let su = sign_split(e@);
            let ed = su.1;
            match r {
                Some(p) => all_digits(ed) && ed.len() >= 1 && digits_val(ed) < u64_bound()
                    && p.0 == su.0 && p.1 == digits_val(ed),
                None => !(all_digits(ed) && ed.len() >= 1 && digits_val(ed) < u64_bound()),
            }
        }),
{
    let n = e.len();
    let mut pos: usize = 0;
    let mut eneg = false;
    if n > 0 && (e[0] == 43 || e[0] == 45) {
        eneg = e[0] == 45;
        pos = 1;
    }
    let ghost ed = e@.subrange(pos as int, n as int);
    proof {
        assert(sign_split(e@).0 == eneg);
        assert(sign_split(e@).1 =~= ed);
    }
    let mut bad = false;
    let mut over = false;
    let mut val: u64 = 0;
    let ghost mut dsg: Seq<u8> = Seq::empty();
    let mut j: usize = pos;
    while j < n
        invariant
            pos <= j <= n == e@.len(),
            ed == e@.subrange(pos as int, n as int),
            bad ==> exists|k: int| pos <= k < j && !is_digit(e@[k]),
            !bad ==> forall|k: int| pos <= k < j ==> is_digit(e@[k]),
            all_digits(dsg),
            !bad ==> dsg =~= e@.subrange(pos as int, j as int),
            !over ==> val == digits_val(dsg),
            over ==> digits_val(dsg) >= u64_bound(),
        decreases n - j,
    {
        let b = e[j];
        if 48 <= b && b <= 57 {
            proof {
                lemma_digits_val_push(dsg, b);
                lemma_digits_val_nonneg(dsg);
            }
            if !over {
                let m10 = val.checked_mul(10);
                match m10 {
                    Some(m2) => {
                        let ma = m2.checked_add((b - 48) as u64);
                        match ma {
                            Some(m3) => {
                                val = m3;
                            },
                            None => {
                                over = true;
                            },
                        }
                    },
                    None => {
                        over = true;
                        proof {
                            assert(digits_val(dsg.push(b)) >= u64_bound());
                        }
                    },
                }
            }
            proof {
                dsg = dsg.push(b);
            }
        } else {
            bad = true;
        }
        proof {
            assert(e@.subrange(pos as int, j + 1) =~= e@.subrange(pos as int, j as int).push(
                e@[j as int],
            ));
        }
        j += 1;
    }
    if bad {
        proof {
            let k = choose|k: int| pos <= k < n && !is_digit(e@[k]);
            assert(ed[k - pos] == e@[k]);
            assert(!all_digits(ed));
        }
        return None;
    }
    proof {
        assert(dsg =~= ed);
    }
    if n == pos {
        return None;
    }
    if over {
        return None;
    }
    Some((eneg, val))
}

/// Parse a numeric string: strip spaces, commas become dots, then read
/// an optionally signed decimal with an optional exponent exactly.
#[verifier::rlimit(100)]
#[verifier::spinoff_prover]
#[verifier::loop_isolation(false)]
pub fn parse_number(s: &[u8]) -> (r: Option<Decimal>)
    ensures
        r == parse_number_spec(s@),
{
    proof {
        reveal(parse_number_spec);
    }
    // Normalize: drop spaces, map commas to dots.
    let n0 = s.len();
    let mut t: Vec<u8> = Vec::new();
    let mut i: usize = 0;
    while i < n0
        invariant
            n0 == s@.len(),
            0 <= i <= n0,
            t@ == norm_num(s@.subrange(0, i as int)),
        decreases n0 - i,
    {
        let b = s[i];
        proof {
            assert(s@.subrange(0, i + 1).drop_last() =~= s@.subrange(0, i as int));
            assert(s@.subrange(0, i + 1).last() == s@[i as int]);
        }
        if b == 32 {
        } else if b == 44 {
            t.push(46);
        } else {
            t.push(b);
        }
        i += 1;
    }
    proof {
        assert(s@.subrange(0, n0 as int) =~= s@);
    }
    let n = t.len();

    // Sign.
    let mut pos: usize = 0;
    let mut neg = false;
    if n > 0 && (t[0] == 43 || t[0] == 45) {
        neg = t[0] == 45;
        pos = 1;
    }
    let ghost u = t@.subrange(pos as int, n as int);
    proof {
        assert(sign_split(t@).0 == neg);
        assert(sign_split(t@).1 =~= u);
        lemma_first_exp(u);
    }

    // Split at the first exponent marker.
    let mut epos: usize = pos;
    while epos < n && t[epos] != 101 && t[epos] != 69
        invariant
            pos <= epos <= n == t@.len(),
            u == t@.subrange(pos as int, n as int),
            forall|k: int| pos <= k < epos ==> t@[k] != 101 && t@[k] != 69,
        decreases n - epos,
    {
        epos += 1;
    }
    let ghost fe = first_exp(u);
    proof {
        assert(fe == epos - pos) by {
            if fe < epos - pos {
                assert(t@[pos + fe] == u[fe]);
            }
            if fe > epos - pos && epos < n {
                assert(u[(epos - pos) as int] == t@[epos as int]);
            }
        }
    }
    let mut m: Vec<u8> = Vec::new();
    let mut k: usize = pos;
    while k < epos
        invariant
            pos <= k <= epos <= n == t@.len(),
            m@ =~= t@.subrange(pos as int, k as int),
        decreases epos - k,
    {
        m.push(t[k]);
        proof {
            assert(t@.subrange(pos as int, k + 1) =~= t@.subrange(pos as int, k as int).push(
                t@[k as int],
            ));
        }
        k += 1;
    }
    proof {
        assert(m@ =~= u.subrange(0, fe));
    }
    let ghost ipfp = split_at_dot(u.subrange(0, fe));
    let ghost ds = ipfp.0 + ipfp.1;

    let mr = parse_mantissa(m.as_slice());
    let (mant, fraclen): (u64, usize) = match mr {
        None => {
            return None;
        },
        Some(p) => p,
    };

    let has_exp = epos < n;
    let ghost espec = sign_split(
        if fe < u.len() {
            u.subrange(fe + 1, u.len() as int)
        } else {
            Seq::empty()
        },
    );
    let (eneg, ev): (bool, u64) = if has_exp {
        let mut e: Vec<u8> = Vec::new();
        let mut k2: usize = epos + 1;
        while k2 < n
            invariant
                epos + 1 <= k2 <= n == t@.len(),
                e@ =~= t@.subrange(epos + 1, k2 as int),
            decreases n - k2,
        {
            e.push(t[k2]);
            proof {
                assert(t@.subrange(epos + 1, k2 + 1) =~= t@.subrange(epos + 1, k2 as int).push(
                    t@[k2 as int],
                ));
            }
            k2 += 1;
        }
        proof {
            assert(e@ =~= u.subrange(fe + 1, u.len() as int));
        }
        let er = parse_exponent(e.as_slice());
        match er {
            None => {
                return None;
            },
            Some(p) => p,
        }
    } else {
        (false, 0)
    };
    let ghost evs: int = if !has_exp {
        0int
    } else if eneg {
        -digits_val(espec.1)
    } else {
        digits_val(espec.1)
    };
    let ghost net: int = evs - ipfp.1.len();

    // Fold the exponent into the mantissa and scale.
    if !eneg && ev >= fraclen as u64 {
        // Non-negative net exponent: multiply the mantissa out.
        let shift = ev - fraclen as u64;
        proof {
            assert(net == shift);
        }
        if mant == 0 {
            proof {
                lemma_pow10_pos(net as nat);
                assert(digits_val(ds) * pow10(net as nat) == 0) by (nonlinear_arith)
                    requires
                        digits_val(ds) == 0,
                ;
                assert(digits_val(ds) * pow10(net as nat) < u64_bound());
            }
            return Some(Decimal { neg, mantissa: 0, scale: 0 });
        }
        let mut mv: u64 = mant;
        let mut step: u64 = 0;
        while step < shift
            invariant
                0 <= step <= shift,
                net == shift,
                1 <= mant == digits_val(ds) < u64_bound(),
                mv == mant * pow10(step as nat),
                mv >= 1,
            decreases shift - step,
        {
            let m10 = mv.checked_mul(10);
            match m10 {
                Some(m2) => {
                    proof {
                        assert(pow10((step + 1) as nat) == 10 * pow10(step as nat));
                        assert(mant * pow10((step + 1) as nat) == 10 * (mant * pow10(
                            step as nat,
                        ))) by (nonlinear_arith)
                            requires
                                pow10((step + 1) as nat) == 10 * pow10(step as nat),
                        ;
                    }
                    mv = m2;
                },
                None => {
                    // Overflow here forces overflow of the full product.
                    proof {
                        assert(pow10((step + 1) as nat) == 10 * pow10(step as nat));
                        assert(mant * pow10((step + 1) as nat) == 10 * (mant * pow10(
                            step as nat,
                        ))) by (nonlinear_arith)
                            requires
                                pow10((step + 1) as nat) == 10 * pow10(step as nat),
                        ;
                        assert(mant * pow10((step + 1) as nat) >= u64_bound());
                        lemma_pow10_mono((step + 1) as nat, net as nat);
                        assert(mant * pow10((step + 1) as nat) <= mant * pow10(net as nat))
                            by (nonlinear_arith)
                            requires
                                mant >= 1,
                                pow10((step + 1) as nat) <= pow10(net as nat),
                        ;
                    }
                    return None;
                },
            }
            step += 1;
        }
        Some(Decimal { neg, mantissa: mv, scale: 0 })
    } else {
        // Non-positive net exponent: the remainder becomes the scale.
        if eneg {
            let tot = (fraclen as u64).checked_add(ev);
            match tot {
                None => {
                    proof {
                        assert(-net >= u64_bound());
                        assert(usize::MAX < u64_bound());
                    }
                    None
                },
                Some(tot) => {
                    if tot < usize::MAX as u64 {
                        proof {
                            assert(net == -(tot as int));
                            if net == 0 {
                                // A zero exponent against a zero fraction:
                                // the value is the mantissa itself.
                                assert(pow10(0) == 1);
                                assert(digits_val(ds) * pow10(0) == digits_val(ds))
                                    by (nonlinear_arith)
                                    requires
                                        pow10(0) == 1,
                                ;
                            }
                        }
                        Some(Decimal { neg, mantissa: mant, scale: tot as usize })
                    } else {
                        None
                    }
                },
            }
        } else {
            // A positive exponent smaller than the fraction length.
            let scale = fraclen - ev as usize;
            proof {
                assert(-net == scale);
                assert(fraclen > 0);
                assert(fraclen < m@.len());
                assert(scale < usize::MAX);
            }
            Some(Decimal { neg, mantissa: mant, scale })
        }
    }
}

/// Filtering the dots out of a body with one dot at `dl` (or none when
/// `dl == u.len()`) yields the two digit parts joined, provided every other
/// byte is dot-free.
proof fn lemma_filter_split(u: Seq<u8>, dl: int)
    requires
        0 <= dl <= u.len(),
        forall|j: int| 0 <= j < dl ==> u[j] != 46,
        dl < u.len() ==> u[dl] == 46,
        forall|j: int| dl < j < u.len() ==> u[j] != 46,
    ensures
        u.filter(|b: u8| b != 46) == if dl == u.len() {
            u
        } else {
            u.subrange(0, dl) + u.subrange(dl + 1, u.len() as int)
        },
    decreases u.len(),
{
    reveal_with_fuel(Seq::filter, 2);
    if u.len() == 0 {
        assert(u.filter(|b: u8| b != 46) =~= u);
    } else {
        let p = u.drop_last();
        if dl == u.len() {
            lemma_filter_split(p, dl - 1);
            assert(u.filter(|b: u8| b != 46) =~= u);
        } else if dl == u.len() - 1 {
            lemma_filter_split(p, dl);
            assert(u.last() == 46);
            assert(u.filter(|b: u8| b != 46) == p.filter(|b: u8| b != 46));
            assert(p.filter(|b: u8| b != 46) =~= u.subrange(0, dl) + u.subrange(
                dl + 1,
                u.len() as int,
            ));
        } else {
            lemma_filter_split(p, dl);
            assert(u.last() != 46);
            assert(u.filter(|b: u8| b != 46) == p.filter(|b: u8| b != 46).push(u.last()));
            assert(p.filter(|b: u8| b != 46) == p.subrange(0, dl) + p.subrange(
                dl + 1,
                p.len() as int,
            ));
            assert(u.filter(|b: u8| b != 46) =~= u.subrange(0, dl) + u.subrange(
                dl + 1,
                u.len() as int,
            ));
        }
    }
}

/// Decimal digit string of a natural number, most significant digit first.
pub open spec fn digits_rep(n: nat) -> Seq<u8>
    decreases n,
{
    if n < 10 {
        seq![(48 + n) as u8]
    } else {
        digits_rep(n / 10).push((48 + n % 10) as u8)
    }
}

proof fn lemma_digits_rep_len(n: nat)
    ensures
        digits_rep(n).len() >= 1,
    decreases n,
{
    if n >= 10 {
        lemma_digits_rep_len(n / 10);
    }
}

pub fn digits_of_u64(n: u64) -> (r: Vec<u8>)
    ensures
        r@ == digits_rep(n as nat),
    decreases n,
{
    if n < 10 {
        let mut v: Vec<u8> = Vec::new();
        v.push(48 + n as u8);
        proof {
            assert(v@ =~= digits_rep(n as nat));
        }
        v
    } else {
        let mut r = digits_of_u64(n / 10);
        r.push(48 + (n % 10) as u8);
        r
    }
}

/// `k` ASCII zeros.
pub open spec fn zeros(k: nat) -> Seq<u8> {
    Seq::new(k, |i: int| 48u8)
}

/// The digit string of the mantissa, left-padded with zeros so that at
/// least one digit stands before the decimal dot.
pub open spec fn dec_digits_padded(d: Decimal) -> Seq<u8> {
    let ds = digits_rep(d.mantissa as nat);
    if ds.len() >= d.scale + 1 {
        ds
    } else {
        zeros((d.scale + 1 - ds.len()) as nat) + ds
    }
}

/// Canonical rendering of a decimal: optional minus sign, integer digits,
/// and — when the scale is positive — a dot and `scale` fraction digits.
pub open spec fn dec_render(d: Decimal) -> Seq<u8> {
    let p = dec_digits_padded(d);
    let sign: Seq<u8> = if d.neg {
        seq![45u8]
    } else {
        Seq::empty()
    };
    if d.scale == 0 {
        sign + p
    } else {
        sign + p.subrange(0, p.len() - d.scale) + seq![46u8] + p.subrange(
            p.len() - d.scale,
            p.len() as int,
        )
    }
}

/// A decimal whose scale a rendering buffer can hold.
pub open spec fn dec_ok(o: Option<Decimal>) -> bool {
    match o {
        Some(d) => d.scale < usize::MAX,
        None => true,
    }
}

/// Render a decimal as bytes.
pub fn dec_to_bytes(d: &Decimal) -> (r: Vec<u8>)
    requires
        d.scale < usize::MAX,
    ensures
        r@ == dec_render(*d),
{
    let ds = digits_of_u64(d.mantissa);
    proof {
        lemma_digits_rep_len(d.mantissa as nat);
    }
    let dl = ds.len();
    let mut p: Vec<u8> = Vec::new();
    if dl < d.scale + 1 {
        let k = d.scale + 1 - dl;
        let mut z: usize = 0;
        while z < k
            invariant
                0 <= z <= k,
                p@ =~= zeros(z as nat),
            decreases k - z,
        {
            p.push(48);
            z += 1;
        }
    }
    crate::textutil::push_all(&mut p, ds.as_slice());
    proof {
        assert(p@ == dec_digits_padded(*d));
    }
    let pl = p.len();
    proof {
        assert(pl >= d.scale + 1);
    }
    let mut r: Vec<u8> = Vec::new();
    if d.neg {
        r.push(45);
    }
    let ghost sign: Seq<u8> = if d.neg {
        seq![45u8]
    } else {
        Seq::empty()
    };
    let ip_len = pl - d.scale;
    let mut i: usize = 0;
    while i < ip_len
        invariant
            0 < ip_len <= pl == p@.len(),
            ip_len == pl - d.scale,
            0 <= i <= ip_len,
            r@ == sign + p@.subrange(0, i as int),
        decreases ip_len - i,
    {
        r.push(p[i]);
        proof {
            assert(sign + p@.subrange(0, i + 1) =~= (sign + p@.subrange(0, i as int)).push(
                p@[i as int],
            ));
        }
        i += 1;
    }
    if d.scale > 0 {
        r.push(46);
        let mut j: usize = ip_len;
        while j < pl
            invariant
                0 < ip_len <= j <= pl == p@.len(),
                ip_len == pl - d.scale,
                r@ == sign + p@.subrange(0, ip_len as int) + seq![46u8] + p@.subrange(
                    ip_len as int,
                    j as int,
                ),
            decreases pl - j,
        {
            r.push(p[j]);
            proof {
                assert(sign + p@.subrange(0, ip_len as int) + seq![46u8] + p@.subrange(
                    ip_len as int,
                    j + 1,
                ) =~= (sign + p@.subrange(0, ip_len as int) + seq![46u8] + p@.subrange(
                    ip_len as int,
                    j as int,
                )).push(p@[j as int]));
            }
            j += 1;
        }
    } else {
        proof {
            assert(p@.subrange(0, pl as int) =~= p@);
        }
    }
    r
}

/// A parsed number's scale always fits below the machine word.
pub proof fn lemma_parse_scale(s: Seq<u8>)
    ensures
        match parse_number_spec(s) {
            Some(d) => d.scale < usize::MAX,
            None => true,
        },
{
    reveal(parse_number_spec);
}

proof fn lemma_norm_num_len(s: Seq<u8>)
    ensures
        norm_num(s).len() <= s.len(),
    decreases s.len(),
{
    if s.len() > 0 {
        lemma_norm_num_len(s.drop_last());
    }
}

/// Mapping every comma of the input to a dot before parsing changes
/// nothing: the comma and the dot forms of a number parse alike.
pub open spec fn commas_to_dots(s: Seq<u8>) -> Seq<u8> {
    s.map_values(|b: u8| if b == 44 { 46u8 } else { b })
}

proof fn lemma_norm_commas(s: Seq<u8>)
    ensures
        norm_num(commas_to_dots(s)) == norm_num(s),
    decreases s.len(),
{
    if s.len() > 0 {
        lemma_norm_commas(s.drop_last());
        assert(commas_to_dots(s).drop_last() =~= commas_to_dots(s.drop_last()));
        assert(commas_to_dots(s).last() == (if s.last() == 44 {
            46u8
        } else {
            s.last()
        }));
    }
}

/// A numeric string written with comma decimal separators parses to the
/// same value as its dot-separator form.
pub proof fn lemma_comma_equals_dot(s: Seq<u8>)
    ensures
        parse_number_spec(s) == parse_number_spec(commas_to_dots(s)),
{
    reveal(parse_number_spec);
    lemma_norm_commas(s);
}

} // verus!
