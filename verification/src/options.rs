//! The negotiated option set: `blksize` and `windowsize`.
//!
//! Requests and OACKs carry `(name, value)` pairs; the two recognized names
//! are parsed as 16-bit decimals, every other pair is passed through
//! untouched.

use vstd::prelude::*;
use vstd::slice::slice_index_get;
use crate::codec::pairs_view;
use crate::consts::{DEFAULT_BLOCKSIZE, DEFAULT_WINDOWSIZE};

verus! {

/// The bytes of the option name `blksize`.
pub open spec fn spec_blksize_name() -> Seq<u8> {
    seq![98u8, 108, 107, 115, 105, 122, 101]
}

/// The bytes of the option name `windowsize`.
pub open spec fn spec_windowsize_name() -> Seq<u8> {
    seq![119u8, 105, 110, 100, 111, 119, 115, 105, 122, 101]
}

/// The option name `blksize` as owned bytes.
pub fn blksize_name() -> (r: Vec<u8>)
    ensures
        r@ == spec_blksize_name(),
{
    let mut v: Vec<u8> = Vec::new();
    v.push(98);
    v.push(108);
    v.push(107);
    v.push(115);
    v.push(105);
    v.push(122);
    v.push(101);
    assert(v@ =~= spec_blksize_name());
    v
}

/// The option name `windowsize` as owned bytes.
pub fn windowsize_name() -> (r: Vec<u8>)
    ensures
        r@ == spec_windowsize_name(),
{
    let mut v: Vec<u8> = Vec::new();
    v.push(119);
    v.push(105);
    v.push(110);
    v.push(100);
    v.push(111);
    v.push(119);
    v.push(115);
    v.push(105);
    v.push(122);
    v.push(101);
    assert(v@ =~= spec_windowsize_name());
    v
}

/// The names of the options this endpoint recognizes.
pub fn exended_options_str() -> (r: Vec<Vec<u8>>)
    ensures
        r@.len() == 2,
        r@[0]@ == spec_blksize_name(),
        r@[1]@ == spec_windowsize_name(),
{
    let mut v: Vec<Vec<u8>> = Vec::new();
    v.push(blksize_name());
    v.push(windowsize_name());
    v
}

/// The number the decimal digits of `s` spell, most significant first.
pub open spec fn spec_dec_value(s: Seq<u8>) -> int
    decreases s.len(),
{
    if s.len() == 0 {
        0
    } else {
        spec_dec_value(s.drop_last()) * 10 + (s.last() - 48)
    }
}

/// Whether every byte of `s` is an ASCII digit.
pub open spec fn spec_all_digits(s: Seq<u8>) -> bool {
    forall|i: int| 0 <= i < s.len() ==> 48 <= #[trigger] s[i] <= 57
}

/// What a 16-bit decimal value field parses to: an optional leading `+`,
/// then at least one digit, spelling a number up to 65535.
pub open spec fn spec_parse_u16_dec(s: Seq<u8>) -> Option<u16> {
    let digits = if s.len() > 0 && s[0] == 43 {
        s.skip(1)
    } else {
        s
    };
    if digits.len() > 0 && spec_all_digits(digits) && spec_dec_value(digits) <= 65535 {
        Some(spec_dec_value(digits) as u16)
    } else {
        None
    }
}

/// Digit strings spell non-negative values, and a prefix never spells more
/// than the whole.
pub proof fn lemma_dec_value_monotonic(s: Seq<u8>, i: int)
    requires
        spec_all_digits(s),
        0 <= i <= s.len(),
    ensures
        spec_dec_value(s) >= spec_dec_value(s.subrange(0, i)) >= 0,
    decreases s.len() - i,
{
    if i == s.len() {
        assert(s.subrange(0, i) =~= s);
        lemma_dec_value_nonneg(s);
    } else {
        lemma_dec_value_monotonic(s, i + 1);
        let a = s.subrange(0, i);
        let b = s.subrange(0, i + 1);
        assert(b.drop_last() =~= a);
        lemma_dec_value_nonneg(a);
        assert(spec_dec_value(b) == spec_dec_value(a) * 10 + (b.last() - 48));
        assert(spec_dec_value(a) * 10 >= spec_dec_value(a)) by (nonlinear_arith)
            requires
                spec_dec_value(a) >= 0,
        ;
    }
}

/// Digit strings spell non-negative values.
pub proof fn lemma_dec_value_nonneg(s: Seq<u8>)
    requires
        spec_all_digits(s),
    ensures
        spec_dec_value(s) >= 0,
    decreases s.len(),
{
    if s.len() > 0 {
        assert(spec_all_digits(s.drop_last()));
        lemma_dec_value_nonneg(s.drop_last());
        assert(spec_dec_value(s.drop_last()) * 10 >= 0) by (nonlinear_arith)
            requires
                spec_dec_value(s.drop_last()) >= 0,
        ;
    }
}

/// Parse a 16-bit decimal value field.
pub fn parse_u16_dec(s: &[u8]) -> (r: Option<u16>)
    ensures
        r == spec_parse_u16_dec(s@),
{
    let n = s.len();
    let start: usize = if n > 0 && *slice_index_get(s, 0) == 43 {
        1
    } else {
        0
    };
    let ghost digits = if s@.len() > 0 && s@[0] == 43 {
        s@.skip(1)
    } else {
        s@
    };
    assert(digits =~= s@.subrange(start as int, n as int));
    if start >= n {
        return None;
    }
    let mut acc: u32 = 0;
    let mut i: usize = start;
    while i < n
        invariant
            start <= i <= n,
            n == s@.len(),
            digits == s@.subrange(start as int, n as int),
            digits == (if s@.len() > 0 && s@[0] == 43 {
                s@.skip(1)
            } else {
                s@
            }),
            spec_all_digits(digits.subrange(0, i - start)),
            acc == spec_dec_value(digits.subrange(0, i - start)),
            acc <= 65535,
        decreases n - i,
    {
        let b = *slice_index_get(s, i);
        if b < 48 || b > 57 {
            assert(digits[i - start] == b);
            assert(!spec_all_digits(digits));
            return None;
        }
        acc = acc * 10 + ((b - 48) as u32);
        proof {
            assert(digits.subrange(0, i - start + 1).drop_last() =~= digits.subrange(
                0,
                i - start,
            ));
            assert(digits.subrange(0, i - start + 1).last() == b);
        }
        i = i + 1;
        if acc > 65535 {
            proof {
                if spec_all_digits(digits) {
                    lemma_dec_value_monotonic(digits, i - start);
                }
            }
            return None;
        }
    }
    assert(digits.subrange(0, n - start) =~= digits);
    Some(acc as u16)
}

/// The two negotiable parameters, at their defaults until an OACK confirms
/// other values.
pub struct ExtendedOptions {
    pub blksize: u16,
    pub windowsize: u16,
}

impl ExtendedOptions {
    /// The defaults: 512-byte blocks, a window of one.
    pub fn new() -> (r: ExtendedOptions)
        ensures
            r.blksize == DEFAULT_BLOCKSIZE,
            r.windowsize == DEFAULT_WINDOWSIZE,
    {
        ExtendedOptions { blksize: DEFAULT_BLOCKSIZE as u16, windowsize: DEFAULT_WINDOWSIZE as u16 }
    }
}

/// What filtering an option list yields: the last `blksize` and
/// `windowsize` values as numbers (defaults when absent), and the unknown
/// pairs in order.  `None` when a recognized option's value fails to parse.
pub open spec fn spec_filter_options(opts: Seq<(Seq<u8>, Seq<u8>)>) -> Option<
    (u16, u16, Seq<(Seq<u8>, Seq<u8>)>),
>
    decreases opts.len(),
{
    if opts.len() == 0 {
        Some(((DEFAULT_BLOCKSIZE as u16), (DEFAULT_WINDOWSIZE as u16), Seq::empty()))
    } else {
        match spec_filter_options(opts.drop_last()) {
            None => None,
            Some((b, w, unk)) => {
                let name = opts.last().0;
                let value = opts.last().1;
                if name == spec_blksize_name() {
                    match spec_parse_u16_dec(value) {
                        Some(x) => Some((x, w, unk)),
                        None => None,
                    }
                } else if name == spec_windowsize_name() {
                    match spec_parse_u16_dec(value) {
                        Some(x) => Some((b, x, unk)),
                        None => None,
                    }
                } else {
                    Some((b, w, unk.push((name, value))))
                }
            },
        }
    }
}

/// A failed prefix fails the whole list.
proof fn lemma_filter_none_extends(opts: Seq<(Seq<u8>, Seq<u8>)>, i: int)
    requires
        0 <= i <= opts.len(),
        spec_filter_options(opts.subrange(0, i)).is_none(),
    ensures
        spec_filter_options(opts).is_none(),
    decreases opts.len() - i,
{
    if i == opts.len() {
        assert(opts.subrange(0, i) =~= opts);
    } else {
        let b = opts.subrange(0, i + 1);
        assert(b.drop_last() =~= opts.subrange(0, i));
        lemma_filter_none_extends(opts, i + 1);
    }
}

/// Split an option list into the typed known options and the residual
/// unknown pairs.  A recognized option whose value fails to parse fails the
/// whole list.
pub fn filter_extended_options(options: &Vec<(Vec<u8>, Vec<u8>)>) -> (r: Result<
    (ExtendedOptions, Vec<(Vec<u8>, Vec<u8>)>),
    (),
>)
    ensures
        match r {
            Ok(kw) => spec_filter_options(pairs_view(options@)) == Some(
                (kw.0.blksize, kw.0.windowsize, pairs_view(kw.1@)),
            ),
            Err(_) => spec_filter_options(pairs_view(options@)).is_none(),
        },
{
    let ghost all = pairs_view(options@);
    let mut known = ExtendedOptions::new();
    let mut unknown: Vec<(Vec<u8>, Vec<u8>)> = Vec::new();
    let blk = blksize_name();
    let win = windowsize_name();

    let n = options.len();
    let mut i: usize = 0;
    while i < n
        invariant
            i <= n,
            n == options@.len(),
            all == pairs_view(options@),
            blk@ == spec_blksize_name(),
            win@ == spec_windowsize_name(),
            spec_filter_options(all.subrange(0, i as int)) == Some(
                (known.blksize, known.windowsize, pairs_view(unknown@)),
            ),
        decreases n - i,
    {
        let pair = vstd::std_specs::vec::vec_index(options, i);
        let name = &pair.0;
        let value = &pair.1;
        proof {
            assert(all.subrange(0, i + 1).drop_last() =~= all.subrange(0, i as int));
            assert(all.subrange(0, i + 1).last() == (name@, value@));
        }
        if crate::types::bytes_eq(name.as_slice(), blk.as_slice()) {
            match parse_u16_dec(value.as_slice()) {
                Some(x) => {
                    known.blksize = x;
                },
                None => {
                    proof {
                        lemma_filter_none_extends(all, i + 1);
                    }
                    return Err(());
                },
            }
        } else if crate::types::bytes_eq(name.as_slice(), win.as_slice()) {
            match parse_u16_dec(value.as_slice()) {
                Some(x) => {
                    known.windowsize = x;
                },
                None => {
                    proof {
                        lemma_filter_none_extends(all, i + 1);
                    }
                    return Err(());
                },
            }
        } else {
            let ghost unknown0 = unknown@;
            unknown.push((pair.0.clone(), pair.1.clone()));
            proof {
                assert(unknown@.last().0@ == name@ && unknown@.last().1@ == value@);
                assert(pairs_view(unknown@) =~= pairs_view(unknown0).push((name@, value@)));
            }
        }
        i = i + 1;
    }
    proof {
        assert(all.subrange(0, n as int) =~= all);
    }
    Ok((known, unknown))
}

/// The decimal digits of `n`, most significant first.
pub open spec fn spec_u16_dec_bytes(n: int) -> Seq<u8>
    decreases n,
{
    if n < 10 {
        seq![(48 + n) as u8]
    } else {
        spec_u16_dec_bytes(n / 10) + seq![(48 + n % 10) as u8]
    }
}

/// The rendered digits spell the number back.
pub proof fn lemma_dec_bytes_value(n: int)
    requires
        0 <= n,
    ensures
        spec_all_digits(spec_u16_dec_bytes(n)),
        spec_u16_dec_bytes(n).len() >= 1,
        spec_u16_dec_bytes(n)[0] != 43,
        spec_dec_value(spec_u16_dec_bytes(n)) == n,
    decreases n,
{
    if n < 10 {
        assert(spec_u16_dec_bytes(n).drop_last() =~= Seq::<u8>::empty());
        assert(spec_dec_value(Seq::<u8>::empty()) == 0);
        assert(spec_u16_dec_bytes(n).last() == (48 + n) as u8);
        assert(spec_dec_value(spec_u16_dec_bytes(n)) == n);
    } else {
        lemma_dec_bytes_value(n / 10);
        let w = spec_u16_dec_bytes(n);
        let h = spec_u16_dec_bytes(n / 10);
        assert(w.drop_last() =~= h);
        assert(w.last() == (48 + n % 10) as u8);
        assert(spec_dec_value(w) == spec_dec_value(h) * 10 + (n % 10));
        assert((n / 10) * 10 + n % 10 == n) by (nonlinear_arith);
        assert forall|i: int| 0 <= i < w.len() implies 48 <= #[trigger] w[i] <= 57 by {
            if i < w.len() - 1 {
                assert(w[i] == h[i]);
            }
        }
    }
}

/// Parsing the rendered digits of a 16-bit number gives it back.
pub proof fn lemma_dec_roundtrip(n: u16)
    ensures
        spec_parse_u16_dec(spec_u16_dec_bytes(n as int)) == Some(n),
{
    lemma_dec_bytes_value(n as int);
}

/// Render a 16-bit number in decimal.
pub fn u16_to_dec(n: u16) -> (r: Vec<u8>)
    ensures
        r@ == spec_u16_dec_bytes(n as int),
{
    let mut rev: Vec<u8> = Vec::new();
    let mut m: u16 = n;
    loop
        invariant
            spec_u16_dec_bytes(n as int) == spec_u16_dec_bytes(m as int) + rev@.reverse(),
        ensures
            m < 10,
            spec_u16_dec_bytes(n as int) == spec_u16_dec_bytes(m as int) + rev@.reverse(),
        decreases m,
    {
        if m < 10 {
            break;
        }
        let ghost rev0 = rev@;
        rev.push(48 + (m % 10) as u8);
        proof {
            assert(rev@.reverse() =~= seq![(48 + (m as int) % 10) as u8] + rev0.reverse());
            assert(spec_u16_dec_bytes(m as int / 10) + rev@.reverse() =~= (spec_u16_dec_bytes(
                m as int / 10,
            ) + seq![(48 + (m as int) % 10) as u8]) + rev0.reverse());
            assert(spec_u16_dec_bytes(m as int) == spec_u16_dec_bytes(m as int / 10) + seq![
                (48 + (m as int) % 10) as u8,
            ]);
        }
        m = m / 10;
    }
    let mut out: Vec<u8> = Vec::new();
    out.push(48 + m as u8);
    assert(out@ =~= spec_u16_dec_bytes(m as int));
    let ghost revd = rev@;
    let mut i: usize = rev.len();
    while i > 0
        invariant
            i <= revd.len(),
            rev@ == revd,
            out@ == spec_u16_dec_bytes(m as int) + revd.reverse().subrange(
                0,
                revd.len() - i,
            ),
        decreases i,
    {
        i = i - 1;
        let b = *vstd::std_specs::vec::vec_index(&rev, i);
        out.push(b);
        proof {
            assert(revd.reverse()[revd.len() - i - 1] == revd[i as int]);
            assert(out@ =~= spec_u16_dec_bytes(m as int) + revd.reverse().subrange(
                0,
                revd.len() - i,
            ));
        }
    }
    proof {
        assert(revd.reverse().subrange(0, revd.len() as int) =~= revd.reverse());
    }
    out
}

} // verus!
