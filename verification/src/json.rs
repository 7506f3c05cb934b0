//! Minimal JSON emission over bytes: string escaping, optional strings,
//! optional numbers.  Non-ASCII bytes pass through unchanged (JSON strings
//! carry raw UTF-8); quotes, backslashes and control bytes are escaped.

use vstd::prelude::*;
use crate::num::{dec_render, dec_to_bytes, Decimal};
use crate::textutil::push_all;

verus! {

/// Lowercase hex digit of a value below 16.
pub open spec fn hex_digit(n: u8) -> u8 {
    if n < 10 {
        (48 + n) as u8
    } else {
        (87 + n) as u8
    }
}

/// The escape sequence of one byte inside a JSON string.
pub open spec fn esc_byte(b: u8) -> Seq<u8> {
    if b == 34 {
        seq![92u8, 34u8]
    } else if b == 92 {
        seq![92u8, 92u8]
    } else if b == 8 {
        seq![92u8, 98u8]
    } else if b == 9 {
        seq![92u8, 116u8]
    } else if b == 10 {
        seq![92u8, 110u8]
    } else if b == 12 {
        seq![92u8, 102u8]
    } else if b == 13 {
        seq![92u8, 114u8]
    } else if b < 32 {
        seq![92u8, 117u8, 48u8, 48u8, hex_digit(b / 16), hex_digit(b % 16)]
    } else {
        seq![b]
    }
}

/// A byte string with every byte escaped.
pub open spec fn json_escape(s: Seq<u8>) -> Seq<u8>
    decreases s.len(),
{
    if s.len() == 0 {
        Seq::empty()
    } else {
        json_escape(s.drop_last()) + esc_byte(s.last())
    }
}

/// A JSON string literal: quotes around the escaped bytes.
pub open spec fn json_string(s: Seq<u8>) -> Seq<u8> {
    seq![34u8] + json_escape(s) + seq![34u8]
}

/// The four bytes of `null`.
pub open spec fn json_null() -> Seq<u8> {
    seq![110u8, 117u8, 108u8, 108u8]
}

/// An optional string: `null` or a JSON string.
pub open spec fn json_opt_string(o: Option<Seq<u8>>) -> Seq<u8> {
    match o {
        None => json_null(),
        Some(s) => json_string(s),
    }
}

/// An optional number: `null` or the decimal's rendering.
pub open spec fn json_opt_number(o: Option<Decimal>) -> Seq<u8> {
    match o {
        None => json_null(),
        Some(d) => dec_render(d),
    }
}

/// Append the escaped form of `s`.
pub fn push_escaped(out: &mut Vec<u8>, s: &[u8])
    ensures
        final(out)@ == old(out)@ + json_escape(s@),
{
    let n = s.len();
    let mut i: usize = 0;
    while i < n
        invariant
            n == s@.len(),
            0 <= i <= n,
            out@ == old(out)@ + json_escape(s@.subrange(0, i as int)),
        decreases n - i,
    {
        let b = s[i];
        proof {
            let pre = s@.subrange(0, i as int);
            let ext = s@.subrange(0, i + 1);
            assert(ext.drop_last() =~= pre);
            assert(ext.last() == s@[i as int]);
        }
        let ghost before = out@;
        if b == 34 {
            out.push(92);
            out.push(34);
        } else if b == 92 {
            out.push(92);
            out.push(92);
        } else if b == 8 {
            out.push(92);
            out.push(98);
        } else if b == 9 {
            out.push(92);
            out.push(116);
        } else if b == 10 {
            out.push(92);
            out.push(110);
        } else if b == 12 {
            out.push(92);
            out.push(102);
        } else if b == 13 {
            out.push(92);
            out.push(114);
        } else if b < 32 {
            out.push(92);
            out.push(117);
            out.push(48);
            out.push(48);
            let hi = b / 16;
            let lo = b % 16;
            out.push(if hi < 10 {
                48 + hi
            } else {
                87 + hi
            });
            out.push(if lo < 10 {
                48 + lo
            } else {
                87 + lo
            });
        } else {
            out.push(b);
        }
        proof {
            assert(out@ =~= before + esc_byte(s@[i as int]));
            assert(out@ =~= old(out)@ + json_escape(s@.subrange(0, i + 1)));
        }
        i += 1;
    }
    proof {
        assert(s@.subrange(0, n as int) =~= s@);
    }
}

/// Append a JSON string literal.
pub fn push_json_string(out: &mut Vec<u8>, s: &[u8])
    ensures
        final(out)@ == old(out)@ + json_string(s@),
{
    out.push(34);
    push_escaped(out, s);
    out.push(34);
    proof {
        assert(out@ =~= old(out)@ + json_string(s@));
    }
}

/// Append `null`.
pub fn push_null(out: &mut Vec<u8>)
    ensures
        final(out)@ == old(out)@ + json_null(),
{
    out.push(110);
    out.push(117);
    out.push(108);
    out.push(108);
    proof {
        assert(out@ =~= old(out)@ + json_null());
    }
}

/// Append an optional string value.
pub fn push_opt_string(out: &mut Vec<u8>, o: &Option<Vec<u8>>)
    ensures
        final(out)@ == old(out)@ + json_opt_string(
            match *o {
                Some(ref v) => Some(v@),
                None => None,
            },
        ),
{
    match o {
        None => push_null(out),
        Some(v) => push_json_string(out, v.as_slice()),
    }
}

/// Append an optional number value.
pub fn push_opt_number(out: &mut Vec<u8>, o: &Option<Decimal>)
    requires
        crate::num::dec_ok(*o),
    ensures
        final(out)@ == old(out)@ + json_opt_number(*o),
{
    match o {
        None => push_null(out),
        Some(d) => {
            let bytes = dec_to_bytes(d);
            push_all(out, bytes.as_slice());
        },
    }
}

/// Concatenation of a list of parts, in order.
pub open spec fn concat_all(parts: Seq<Seq<u8>>) -> Seq<u8>
    decreases parts.len(),
{
    if parts.len() == 0 {
        Seq::empty()
    } else {
        concat_all(parts.drop_last()) + parts.last()
    }
}

/// View of a vector of byte strings (parts of a document).
pub open spec fn parts_views(v: Seq<Vec<u8>>) -> Seq<Seq<u8>> {
    Seq::new(v.len(), |i: int| v[i]@)
}

/// Join parts into one byte string.
pub fn join_parts(parts: &Vec<Vec<u8>>) -> (r: Vec<u8>)
    ensures
        r@ == concat_all(parts_views(parts@)),
{
    let mut r: Vec<u8> = Vec::new();
    let n = parts.len();
    let mut i: usize = 0;
    while i < n
        invariant
            n == parts@.len(),
            0 <= i <= n,
            r@ == concat_all(parts_views(parts@).take(i as int)),
        decreases n - i,
    {
        push_all(&mut r, parts[i].as_slice());
        proof {
            let pv = parts_views(parts@);
            assert(pv.take(i + 1).drop_last() =~= pv.take(i as int));
            assert(pv.take(i + 1).last() == pv[i as int]);
        }
        i += 1;
    }
    proof {
        assert(parts_views(parts@).take(n as int) =~= parts_views(parts@));
    }
    r
}

/// A JSON string literal as an owned part.
pub fn json_string_bytes(s: &[u8]) -> (r: Vec<u8>)
    ensures
        r@ == json_string(s@),
{
    let mut out: Vec<u8> = Vec::new();
    push_json_string(&mut out, s);
    out
}

/// An optional string as an owned part.
pub fn json_opt_string_bytes(o: &Option<Vec<u8>>) -> (r: Vec<u8>)
    ensures
        r@ == json_opt_string(
            match *o {
                Some(ref v) => Some(v@),
                None => None,
            },
        ),
{
    let mut out: Vec<u8> = Vec::new();
    push_opt_string(&mut out, o);
    out
}

/// An optional number as an owned part.
pub fn json_opt_number_bytes(o: &Option<Decimal>) -> (r: Vec<u8>)
    requires
        crate::num::dec_ok(*o),
    ensures
        r@ == json_opt_number(*o),
{
    let mut out: Vec<u8> = Vec::new();
    push_opt_number(&mut out, o);
    out
}

} // verus!
