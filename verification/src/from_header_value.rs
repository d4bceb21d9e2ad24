//! Typed conversion of single header values.
//!
//! [`FromHeaderValue`] plays the role `FromStr` plays for general text: it
//! turns the raw bytes of one header value into a typed value, or `None`
//! when the text does not denote one. Scalar conversions trim ASCII spaces
//! (space only, not tab) from both ends before reading the text.

use vstd::prelude::*;
use crate::value::{
    spec_parse_bool, spec_parse_u8, spec_parse_u16, spec_parse_u32, spec_parse_u64,
    spec_parse_u128, spec_parse_usize, spec_parse_i8, spec_parse_i16, spec_parse_i32,
    spec_parse_i64, spec_parse_i128, spec_parse_isize, parse_bool_value, parse_u8_value,
    parse_u16_value, parse_u32_value, parse_u64_value, parse_u128_value, parse_usize_value,
    parse_i8_value, parse_i16_value, parse_i32_value, parse_i64_value, parse_i128_value,
    parse_isize_value,
};

verus! {

/// Strips leading and trailing ASCII space bytes (space only, not tab).
pub open spec fn spec_trim(s: Seq<u8>) -> Seq<u8>
    decreases s.len(),
{
    if s.len() > 0 && s[0] == 32 {
        spec_trim(s.drop_first())
    } else if s.len() > 0 && s[s.len() - 1] == 32 {
        spec_trim(s.drop_last())
    } else {
        s
    }
}

proof fn lemma_trim_all_spaces(s: Seq<u8>)
    requires
        forall|j: int| 0 <= j < s.len() ==> s[j] == 32,
    ensures
        spec_trim(s) == Seq::<u8>::empty(),
    decreases s.len(),
{
    if s.len() == 0 {
        assert(s =~= Seq::<u8>::empty());
    } else {
        lemma_trim_all_spaces(s.drop_first());
    }
}

proof fn lemma_trim_range(s: Seq<u8>, lo: int, hi: int)
    requires
        0 <= lo < hi <= s.len(),
        forall|j: int| 0 <= j < lo ==> s[j] == 32,
        forall|j: int| hi <= j < s.len() ==> s[j] == 32,
        s[lo] != 32,
        s[hi - 1] != 32,
    ensures
        spec_trim(s) == s.subrange(lo, hi),
    decreases s.len(),
{
    if lo > 0 {
        let t = s.drop_first();
        lemma_trim_range(t, lo - 1, hi - 1);
        assert(t.subrange(lo - 1, hi - 1) =~= s.subrange(lo, hi));
    } else if hi < s.len() {
        let t = s.drop_last();
        lemma_trim_range(t, lo, hi);
        assert(t.subrange(lo, hi) =~= s.subrange(lo, hi));
    } else {
        assert(spec_trim(s) == s);
        assert(s.subrange(0, s.len() as int) =~= s);
    }
}

/// Strips leading and trailing ASCII space bytes from a value slice.
pub fn trim(s: &[u8]) -> (r: &[u8])
    ensures
        r@ == spec_trim(s@),
{
    let n: usize = s.len();
    let mut lo: usize = 0;
    while lo < n && s[lo] == 32
        invariant
            0 <= lo <= n,
            n == s@.len(),
            forall|j: int| 0 <= j < lo ==> s@[j] == 32,
        decreases n - lo,
    {
        lo = lo + 1;
    }
    if lo == n {
        proof {
            lemma_trim_all_spaces(s@);
        }
        let r = vstd::slice::slice_subrange(s, n, n);
        proof {
            assert(r@ =~= Seq::<u8>::empty());
        }
        return r;
    }
    assert(s@[lo as int] != 32);
    let mut hi: usize = n;
    while hi > lo + 1 && s[hi - 1] == 32
        invariant
            lo < hi <= n,
            n == s@.len(),
            forall|j: int| hi <= j < n ==> s@[j] == 32,
        decreases hi,
    {
        hi = hi - 1;
    }
    proof {
        if s@[hi - 1] == 32 {
            assert(hi == lo + 1);
            assert(s@[lo as int] == 32);
        }
        lemma_trim_range(s@, lo as int, hi as int);
    }
    vstd::slice::slice_subrange(s, lo, hi)
}

/// Conversion of one raw header value into a typed value, `None` when the
/// text does not denote one.
pub trait FromHeaderValue: Sized {
    /// The value the raw text denotes, if any.
    spec fn spec_parse(s: Seq<u8>) -> Option<Self>;

    /// Converts the raw value text.
    fn parse_header_value(slice: &[u8]) -> (r: Option<Self>)
        ensures
            r == Self::spec_parse(slice@),
    ;
}

impl FromHeaderValue for bool {
    open spec fn spec_parse(s: Seq<u8>) -> Option<bool> {
        spec_parse_bool(s)
    }

    fn parse_header_value(slice: &[u8]) -> (r: Option<bool>) {
        parse_bool_value(slice)
    }
}

impl FromHeaderValue for u8 {
    open spec fn spec_parse(s: Seq<u8>) -> Option<u8> {
        spec_parse_u8(s)
    }

    fn parse_header_value(slice: &[u8]) -> (r: Option<u8>) {
        parse_u8_value(slice)
    }
}

impl FromHeaderValue for u16 {
    open spec fn spec_parse(s: Seq<u8>) -> Option<u16> {
        spec_parse_u16(s)
    }

    fn parse_header_value(slice: &[u8]) -> (r: Option<u16>) {
        parse_u16_value(slice)
    }
}

impl FromHeaderValue for u32 {
    open spec fn spec_parse(s: Seq<u8>) -> Option<u32> {
        spec_parse_u32(s)
    }

    fn parse_header_value(slice: &[u8]) -> (r: Option<u32>) {
        parse_u32_value(slice)
    }
}

impl FromHeaderValue for u64 {
    open spec fn spec_parse(s: Seq<u8>) -> Option<u64> {
        spec_parse_u64(s)
    }

    fn parse_header_value(slice: &[u8]) -> (r: Option<u64>) {
        parse_u64_value(slice)
    }
}

impl FromHeaderValue for u128 {
    open spec fn spec_parse(s: Seq<u8>) -> Option<u128> {
        spec_parse_u128(s)
    }

    fn parse_header_value(slice: &[u8]) -> (r: Option<u128>) {
        parse_u128_value(slice)
    }
}

impl FromHeaderValue for usize {
    open spec fn spec_parse(s: Seq<u8>) -> Option<usize> {
        spec_parse_usize(s)
    }

    fn parse_header_value(slice: &[u8]) -> (r: Option<usize>) {
        parse_usize_value(slice)
    }
}

impl FromHeaderValue for i8 {
    open spec fn spec_parse(s: Seq<u8>) -> Option<i8> {
        spec_parse_i8(s)
    }

    fn parse_header_value(slice: &[u8]) -> (r: Option<i8>) {
        parse_i8_value(slice)
    }
}

impl FromHeaderValue for i16 {
    open spec fn spec_parse(s: Seq<u8>) -> Option<i16> {
        spec_parse_i16(s)
    }

    fn parse_header_value(slice: &[u8]) -> (r: Option<i16>) {
        parse_i16_value(slice)
    }
}

impl FromHeaderValue for i32 {
    open spec fn spec_parse(s: Seq<u8>) -> Option<i32> {
        spec_parse_i32(s)
    }

    fn parse_header_value(slice: &[u8]) -> (r: Option<i32>) {
        parse_i32_value(slice)
    }
}

impl FromHeaderValue for i64 {
    open spec fn spec_parse(s: Seq<u8>) -> Option<i64> {
        spec_parse_i64(s)
    }

    fn parse_header_value(slice: &[u8]) -> (r: Option<i64>) {
        parse_i64_value(slice)
    }
}

impl FromHeaderValue for i128 {
    open spec fn spec_parse(s: Seq<u8>) -> Option<i128> {
        spec_parse_i128(s)
    }

    fn parse_header_value(slice: &[u8]) -> (r: Option<i128>) {
        parse_i128_value(slice)
    }
}

impl FromHeaderValue for isize {
    open spec fn spec_parse(s: Seq<u8>) -> Option<isize> {
        spec_parse_isize(s)
    }

    fn parse_header_value(slice: &[u8]) -> (r: Option<isize>) {
        parse_isize_value(slice)
    }
}

} // verus!
