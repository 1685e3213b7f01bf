//! Markup escaping: the five reserved characters `"` `&` `'` `<` `>` become
//! fixed five-byte numeric character references; every other byte is written
//! untouched.

use vstd::prelude::*;

use crate::chars::{AMP, APOS, GT, HASH, LT, QUOT, SEMI};

verus! {

/// Whether a byte is one of the five reserved markup characters.
pub open spec fn is_reserved(b: u8) -> bool {
    b == QUOT || b == AMP || b == APOS || b == LT || b == GT
}

/// True when no byte of `s` needs escaping.
pub open spec fn no_reserved(s: Seq<u8>) -> bool {
    forall|i: int| 0 <= i < s.len() ==> !is_reserved(#[trigger] s[i])
}

/// The five-byte numeric character reference for a reserved byte:
/// `&#34;` `&#38;` `&#39;` `&#60;` `&#62;`.
pub open spec fn entity(b: u8) -> Seq<u8>
    recommends
        is_reserved(b),
{
    if b == QUOT {
        seq![AMP, HASH, 51u8, 52u8, SEMI]
    } else if b == AMP {
        seq![AMP, HASH, 51u8, 56u8, SEMI]
    } else if b == APOS {
        seq![AMP, HASH, 51u8, 57u8, SEMI]
    } else if b == LT {
        seq![AMP, HASH, 54u8, 48u8, SEMI]
    } else {
        seq![AMP, HASH, 54u8, 50u8, SEMI]
    }
}

/// What one input byte contributes to the escaped output.
pub open spec fn escaped_byte(b: u8) -> Seq<u8> {
    if is_reserved(b) {
        entity(b)
    } else {
        seq![b]
    }
}

/// The escaped form of a byte string.
pub open spec fn escaped(s: Seq<u8>) -> Seq<u8>
    decreases s.len(),
{
    if s.len() == 0 {
        Seq::empty()
    } else {
        escaped_byte(s[0]) + escaped(s.skip(1))
    }
}

/// One byte escapes to its single contribution.
pub proof fn lemma_escaped_one(b: u8)
    ensures
        escaped(seq![b]) == escaped_byte(b),
{
    let sb = seq![b];
    assert(sb.len() == 1 && sb[0] == b);
    assert(sb.skip(1) =~= Seq::<u8>::empty());
    assert(escaped(sb.skip(1)) == Seq::<u8>::empty());
    assert(escaped(sb) =~= escaped_byte(b));
}

/// Escaping distributes over concatenation.
pub proof fn lemma_escaped_append(a: Seq<u8>, b: Seq<u8>)
    ensures
        escaped(a + b) == escaped(a) + escaped(b),
    decreases a.len(),
{
    if a.len() == 0 {
        assert(a + b =~= b);
        assert(escaped(a) + escaped(b) =~= escaped(b));
    } else {
        lemma_escaped_append(a.skip(1), b);
        assert((a + b).skip(1) =~= a.skip(1) + b);
        assert(escaped(a + b) =~= escaped(a) + escaped(b));
    }
}

/// Escaping text that holds none of the five reserved characters is
/// a no-op; together with [`crate::fast_integer::lemma_digits_safe`]
/// this is why numeric and boolean renderings are never altered.
pub proof fn lemma_escaped_no_op(s: Seq<u8>)
    requires
        no_reserved(s),
    ensures
        escaped(s) == s,
    decreases s.len(),
{
    if s.len() == 0 {
        assert(escaped(s) =~= s);
    } else {
        assert(!is_reserved(s[0]));
        assert(no_reserved(s.skip(1)));
        lemma_escaped_no_op(s.skip(1));
        assert(escaped(s) =~= s);
    }
}

/// Escaped output never gains a new reserved byte other than the leading
/// ampersands of the references themselves; more to the point, escaping an
/// already-escaped reserved-free text is again a no-op, so escaping is
/// idempotent on values whose rendering is reserved-free.
pub proof fn lemma_escaped_idempotent_on_safe(s: Seq<u8>)
    requires
        no_reserved(s),
    ensures
        escaped(escaped(s)) == s,
{
    lemma_escaped_no_op(s);
}

/// The decoded byte, if the five-byte reference of one of the reserved
/// characters starts at `i`.
pub open spec fn entity_at(s: Seq<u8>, i: int) -> Option<u8> {
    if 0 <= i && i + 5 <= s.len() {
        if s.subrange(i, i + 5) == entity(QUOT) {
            Some(QUOT)
        } else if s.subrange(i, i + 5) == entity(AMP) {
            Some(AMP)
        } else if s.subrange(i, i + 5) == entity(APOS) {
            Some(APOS)
        } else if s.subrange(i, i + 5) == entity(LT) {
            Some(LT)
        } else if s.subrange(i, i + 5) == entity(GT) {
            Some(GT)
        } else {
            None
        }
    } else {
        None
    }
}

/// The decoding of the five numeric character references; every other byte
/// passes through.
pub open spec fn unescaped(s: Seq<u8>) -> Seq<u8>
    decreases s.len(),
{
    if s.len() == 0 {
        Seq::empty()
    } else if entity_at(s, 0) is Some {
        seq![entity_at(s, 0)->Some_0] + unescaped(s.skip(5))
    } else {
        seq![s[0]] + unescaped(s.skip(1))
    }
}

proof fn lemma_entity_head(b: u8, tail: Seq<u8>)
    requires
        is_reserved(b),
    ensures
        entity_at(entity(b) + tail, 0) == Some(b),
        (entity(b) + tail).skip(5) == tail,
    decreases b,
{
    let s = entity(b) + tail;
    assert(s.subrange(0, 5) =~= entity(b));
    assert(entity(QUOT)[3] == 52u8 && entity(AMP)[3] == 56u8 && entity(APOS)[3] == 57u8
        && entity(LT)[2] == 54u8 && entity(LT)[3] == 48u8 && entity(GT)[3] == 50u8);
    assert(s.skip(5) =~= tail);
}

/// Decoding inverts escaping: the escaped form of any text decodes back to
/// that text exactly.
pub proof fn lemma_unescape_escape(s: Seq<u8>)
    ensures
        unescaped(escaped(s)) == s,
    decreases s.len(),
{
    if s.len() == 0 {
    } else {
        let rest = escaped(s.skip(1));
        lemma_unescape_escape(s.skip(1));
        if is_reserved(s[0]) {
            lemma_entity_head(s[0], rest);
            assert(unescaped(escaped(s)) =~= s);
        } else {
            let e = escaped(s);
            assert(e == seq![s[0]] + rest);
            assert(e[0] == s[0] && e[0] != AMP);
            if entity_at(e, 0) is Some {
                assert(e.subrange(0, 5)[0] == AMP);
                assert(false);
            }
            assert(e.skip(1) =~= rest);
            assert(unescaped(escaped(s)) =~= s);
        }
    }
}

/// Escaping is injective: no two different texts share an escaped form, so
/// no reference sequence collides with passed-through literal text.
pub proof fn lemma_escaped_injective(a: Seq<u8>, b: Seq<u8>)
    requires
        escaped(a) == escaped(b),
    ensures
        a == b,
{
    lemma_unescape_escape(a);
    lemma_unescape_escape(b);
}

/// Append the five bytes of the reference for a reserved byte.
fn push_entity(out: &mut Vec<u8>, b: u8)
    requires
        is_reserved(b),
    ensures
        final(out)@ == old(out)@ + entity(b),
{
    out.push(AMP);
    out.push(HASH);
    if b == QUOT {
        out.push(51);
        out.push(52);
    } else if b == AMP {
        out.push(51);
        out.push(56);
    } else if b == APOS {
        out.push(51);
        out.push(57);
    } else if b == LT {
        out.push(54);
        out.push(48);
    } else {
        out.push(54);
        out.push(50);
    }
    out.push(SEMI);
    assert(out@ =~= old(out)@ + entity(b));
}

/// Append the escaped form of `s` to `out`.
///
/// The scan touches only the closed byte range `"` .. `>`; every byte
/// outside it — in particular every byte of a multi-byte UTF-8 sequence —
/// is copied without any further test.
pub fn escape_append(out: &mut Vec<u8>, s: &[u8])
    ensures
        final(out)@ == old(out)@ + escaped(s@),
{
    let len = s.len();
    let mut i: usize = 0;
    while i < len
        invariant
            len == s@.len(),
            i <= len,
            out@ == old(out)@ + escaped(s@.take(i as int)),
        decreases len - i,
    {
        let b = s[i];
        if QUOT <= b && b <= GT && (b == QUOT || b == AMP || b == APOS || b == LT || b == GT) {
            push_entity(out, b);
        } else {
            out.push(b);
        }
        proof {
            lemma_escaped_append(s@.take(i as int), seq![s@[i as int]]);
            assert(s@.take(i + 1) =~= s@.take(i as int) + seq![s@[i as int]]);
            lemma_escaped_one(s@[i as int]);
        }
        i = i + 1;
    }
    assert(s@.take(len as int) =~= s@);
}

/// The escaped form of `s` as a fresh buffer.
pub fn escape_bytes(s: &[u8]) -> (r: Vec<u8>)
    ensures
        r@ == escaped(s@),
{
    let mut out: Vec<u8> = Vec::new();
    escape_append(&mut out, s);
    out
}

/// Decode the five numeric character references in `s`; all other bytes
/// pass through.
pub fn unescape_bytes(s: &[u8]) -> (r: Vec<u8>)
    ensures
        r@ == unescaped(s@),
{
    let len = s.len();
    let mut out: Vec<u8> = Vec::new();
    let mut i: usize = 0;
    assert(s@.skip(0) =~= s@);
    while i < len
        invariant
            len == s@.len(),
            i <= len,
            unescaped(s@) == out@ + unescaped(s@.skip(i as int)),
        decreases len - i,
    {
        let ghost tail = s@.skip(i as int);
        let mut step: usize = 1;
        if len - i >= 5 && s[i] == AMP && s[i + 1] == HASH && s[i + 4] == SEMI {
            let d0 = s[i + 2];
            let d1 = s[i + 3];
            if d0 == 51 && d1 == 52 {
                out.push(QUOT);
                step = 5;
            } else if d0 == 51 && d1 == 56 {
                out.push(AMP);
                step = 5;
            } else if d0 == 51 && d1 == 57 {
                out.push(APOS);
                step = 5;
            } else if d0 == 54 && d1 == 48 {
                out.push(LT);
                step = 5;
            } else if d0 == 54 && d1 == 50 {
                out.push(GT);
                step = 5;
            } else {
                out.push(s[i]);
            }
        } else {
            out.push(s[i]);
        }
        proof {
            if step == 5 {
                let b = out@[out@.len() - 1];
                assert(tail.subrange(0, 5) =~= entity(b));
                assert(entity_at(tail, 0) == Some(b));
                assert(tail.skip(5) =~= s@.skip(i + 5));
            } else {
                if entity_at(tail, 0) is Some {
                    let b = entity_at(tail, 0)->Some_0;
                    assert(tail.subrange(0, 5) =~= entity(b));
                    assert(tail[0] == AMP && tail[1] == HASH && tail[4] == SEMI);
                    assert(false);
                }
                assert(tail[0] == s@[i as int]);
                assert(tail.skip(1) =~= s@.skip(i + 1));
            }
        }
        i = i + step;
    }
    assert(s@.skip(len as int) =~= Seq::<u8>::empty());
    out
}

/// The rendering of a boolean value.
pub open spec fn bool_bytes(b: bool) -> Seq<u8> {
    if b {
        seq![116u8, 114u8, 117u8, 101u8]
    } else {
        seq![102u8, 97u8, 108u8, 115u8, 101u8]
    }
}

/// The rendering of a boolean value.
pub fn format_bool(b: bool) -> (r: Vec<u8>)
    ensures
        r@ == bool_bytes(b),
{
    let mut out: Vec<u8> = Vec::new();
    if b {
        out.push(116);
        out.push(114);
        out.push(117);
        out.push(101);
    } else {
        out.push(102);
        out.push(97);
        out.push(108);
        out.push(115);
        out.push(101);
    }
    assert(out@ =~= bool_bytes(b));
    out
}

/// Boolean renderings hold none of the five reserved characters, so
/// escaping never alters a printed boolean.
pub proof fn lemma_bool_safe(b: bool)
    ensures
        no_reserved(bool_bytes(b)),
        escaped(bool_bytes(b)) == bool_bytes(b),
{
    lemma_escaped_no_op(bool_bytes(b));
}

/// A value tagged as already safe for output: rendering it writes it
/// verbatim, with no escaping pass.
pub struct XmlEscape<T>(pub T);

/// Types whose rendering is statically known to need no escaping.
/// Booleans and already-tagged values are safe, and the classification is
/// structural: a reference to a safe value is itself safe. The numeric
/// primitives are kept out of this set because they take the dedicated
/// fast path of [`crate::fast_integer::IntMarker`] instead; their
/// renderings are just as safe, which
/// [`crate::fast_integer::lemma_digits_safe`] states.
pub trait RawMarker {

}

impl<T: RawMarker> RawMarker for &T {

}

impl<T: RawMarker> RawMarker for &mut T {

}

impl<T> RawMarker for XmlEscape<T> {

}

impl<T: RawMarker> RawMarker for std::boxed::Box<T> {

}

impl<T: RawMarker> RawMarker for std::rc::Rc<T> {

}

impl<T: RawMarker> RawMarker for std::sync::Arc<T> {

}

impl RawMarker for bool {

}

/// Zero-sized tag that remembers the static type of one argument so that a
/// formatting strategy can be chosen for it at compile time, with no
/// runtime branch.
pub struct EscapeWrapper<E>(core::marker::PhantomData<E>);

impl<E> EscapeWrapper<E> {
    /// Make the tag for the type of the given argument.
    pub fn new(_value: &E) -> (r: Self) {
        EscapeWrapper(core::marker::PhantomData)
    }
}

/// Strategy of a tag whose argument type is safe: hand the value through
/// untouched.
pub trait RawKind {
    /// Select the identity strategy for a safe value.
    fn wrap<'a, T: RawMarker>(&self, value: &'a T) -> (r: &'a T)
        ensures
            r == value,
    ;
}

impl<T: RawMarker> RawKind for EscapeWrapper<T> {
    fn wrap<'a, U: RawMarker>(&self, value: &'a U) -> (r: &'a U) {
        value
    }
}

/// Fallback strategy, reached only through an extra reference level and so
/// only when no more specific strategy applies: tag the value for
/// escaping.
pub trait EscapeKind {
    /// Select the escaping strategy for an arbitrary value.
    fn wrap<'a, T>(&self, value: &'a T) -> (r: XmlEscape<&'a T>)
        ensures
            r.0 == value,
    ;
}

impl<T> EscapeKind for &EscapeWrapper<T> {
    fn wrap<'a, U>(&self, value: &'a U) -> (r: XmlEscape<&'a U>) {
        XmlEscape(value)
    }
}

} // verus!
