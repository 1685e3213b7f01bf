//! The specialized fast path for printing integers: plain decimal
//! rendering, selected statically per argument type.

use vstd::prelude::*;

use crate::chars::{DIG0, HYPH};
use crate::escape::{escaped, is_reserved, lemma_escaped_no_op, no_reserved, EscapeWrapper};

verus! {

/// The decimal digits of a natural number, most significant first.
pub open spec fn dec_u(n: nat) -> Seq<u8>
    decreases n,
{
    if n < 10 {
        seq![(DIG0 + n) as u8]
    } else {
        dec_u(n / 10) + seq![(DIG0 + n % 10) as u8]
    }
}

/// The decimal rendering of an integer: a leading `-` for negative values,
/// then the digits of the magnitude.
pub open spec fn dec_i(n: int) -> Seq<u8> {
    if n < 0 {
        seq![HYPH] + dec_u((-n) as nat)
    } else {
        dec_u(n as nat)
    }
}

/// Every byte of `dec_u(n)` is a decimal digit.
pub proof fn lemma_dec_u_digits(n: nat)
    ensures
        forall|i: int| 0 <= i < dec_u(n).len() ==> DIG0 <= #[trigger] dec_u(n)[i] <= DIG0 + 9,
    decreases n,
{
    if n >= 10 {
        lemma_dec_u_digits(n / 10);
        let head = dec_u(n / 10);
        assert forall|i: int| 0 <= i < dec_u(n).len() implies DIG0 <= #[trigger] dec_u(n)[i]
            <= DIG0 + 9 by {
            if i < head.len() {
                assert(dec_u(n)[i] == head[i]);
            } else {
                assert(dec_u(n)[i] == (DIG0 + n % 10) as u8);
            }
        }
    }
}

/// Decimal renderings hold none of the five reserved characters, so
/// escaping never alters a printed integer.
pub proof fn lemma_digits_safe(n: int)
    ensures
        no_reserved(dec_i(n)),
        escaped(dec_i(n)) == dec_i(n),
{
    if n < 0 {
        lemma_dec_u_digits((-n) as nat);
        assert forall|i: int| 0 <= i < dec_i(n).len() implies !is_reserved(
            #[trigger] dec_i(n)[i],
        ) by {
            if i > 0 {
                assert(dec_i(n)[i] == dec_u((-n) as nat)[i - 1]);
            }
        }
    } else {
        lemma_dec_u_digits(n as nat);
        assert forall|i: int| 0 <= i < dec_i(n).len() implies !is_reserved(
            #[trigger] dec_i(n)[i],
        ) by {}
    }
    lemma_escaped_no_op(dec_i(n));
}

/// The decimal digits of `n`, most significant first.
pub fn format_u64(n: u64) -> (r: Vec<u8>)
    ensures
        r@ == dec_u(n as nat),
{
    let mut low: Vec<u8> = Vec::new();
    let mut m: u64 = n;
    while m >= 10
        invariant
            dec_u(n as nat) == dec_u(m as nat) + low@.reverse(),
        decreases m,
    {
        let d: u8 = DIG0 + (m % 10) as u8;
        proof {
            assert((low@ + seq![d]).reverse() =~= seq![d] + low@.reverse());
            assert(dec_u(m as nat) == dec_u((m as nat) / 10) + seq![d]);
            assert(dec_u((m as nat) / 10) + (seq![d] + low@.reverse()) =~= dec_u(m as nat)
                + low@.reverse());
            assert((m as nat) / 10 == (m / 10) as nat);
        }
        low.push(d);
        m = m / 10;
    }
    let mut out: Vec<u8> = Vec::new();
    out.push(DIG0 + (m % 10) as u8);
    assert(out@ =~= dec_u(m as nat));
    let mut k: usize = low.len();
    while k > 0
        invariant
            k <= low@.len(),
            dec_u(n as nat) == dec_u(m as nat) + low@.reverse(),
            out@ == dec_u(m as nat) + low@.reverse().take(low@.len() - k),
        decreases k,
    {
        k = k - 1;
        out.push(low[k]);
        proof {
            assert(low@.reverse()[low@.len() - k - 1] == low@[k as int]);
            assert(low@.reverse().take(low@.len() - k) =~= low@.reverse().take(
                low@.len() - k - 1,
            ) + seq![low@[k as int]]);
        }
    }
    proof {
        assert(low@.reverse().take(low@.len() - 0) =~= low@.reverse());
    }
    out
}

/// The decimal rendering of `n`, sign included.
pub fn format_i64(n: i64) -> (r: Vec<u8>)
    ensures
        r@ == dec_i(n as int),
{
    if n >= 0 {
        format_u64(n as u64)
    } else {
        let wide: i128 = n as i128;
        let mag: u64 = (-wide) as u64;
        let mut out: Vec<u8> = Vec::new();
        out.push(HYPH);
        let digits = format_u64(mag);
        let mut j: usize = 0;
        while j < digits.len()
            invariant
                j <= digits@.len(),
                out@ == seq![HYPH] + digits@.take(j as int),
            decreases digits@.len() - j,
        {
            out.push(digits[j]);
            assert(digits@.take(j + 1) =~= digits@.take(j as int) + seq![digits@[j as int]]);
            j = j + 1;
        }
        assert(digits@.take(digits@.len() as int) =~= digits@);
        out
    }
}

/// A value selected for the fast integer path; rendering it prints its
/// plain decimal form.
pub struct ItoaEscape<T>(pub T);

impl ItoaEscape<u64> {
    /// The bytes this value renders to.
    pub fn rendered(&self) -> (r: Vec<u8>)
        ensures
            r@ == dec_u(self.0 as nat),
    {
        format_u64(self.0)
    }
}

impl ItoaEscape<i64> {
    /// The bytes this value renders to.
    pub fn rendered(&self) -> (r: Vec<u8>)
        ensures
            r@ == dec_i(self.0 as int),
    {
        format_i64(self.0)
    }
}

/// Types that take the fast integer path: the primitive integers.
pub trait IntMarker: Sized {

}

impl IntMarker for u8 {

}

impl IntMarker for u16 {

}

impl IntMarker for u32 {

}

impl IntMarker for u64 {

}

impl IntMarker for u128 {

}

impl IntMarker for usize {

}

impl IntMarker for i8 {

}

impl IntMarker for i16 {

}

impl IntMarker for i32 {

}

impl IntMarker for i64 {

}

impl IntMarker for i128 {

}

impl IntMarker for isize {

}

impl<T: IntMarker> IntMarker for &T {

}

impl<T: IntMarker> IntMarker for std::boxed::Box<T> {

}

impl<T: IntMarker> IntMarker for std::rc::Rc<T> {

}

impl<T: IntMarker> IntMarker for std::sync::Arc<T> {

}

/// Strategy of a tag whose argument is an integer: mark it for the fast
/// decimal encoder. Living directly on [`EscapeWrapper`], this strategy
/// outranks the reference-level escaping fallback.
pub trait IntKind {
    /// Select the fast decimal strategy for an integer value.
    fn wrap<'a, T: IntMarker>(&self, value: &'a T) -> (r: ItoaEscape<&'a T>)
        ensures
            r.0 == value,
    ;
}

impl<T: IntMarker> IntKind for EscapeWrapper<T> {
    fn wrap<'a, U: IntMarker>(&self, value: &'a U) -> (r: ItoaEscape<&'a U>) {
        ItoaEscape(value)
    }
}

} // verus!
