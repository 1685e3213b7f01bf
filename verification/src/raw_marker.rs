//! Zero-sized tags that carry an escaping decision made at compile time,
//! so that a render call pays nothing for it at run time.

use vstd::prelude::*;

use crate::escape::XmlEscape;

verus! {

/// The decision to write a value verbatim.
#[derive(Clone, Copy, PartialEq, Eq, Structural, Debug)]
pub struct RawTag;

/// The decision to write a value through the escaper.
#[derive(Clone, Copy, PartialEq, Eq, Structural, Debug)]
pub struct EscapeTag;

impl EscapeTag {
    /// Tag a value for escaping on output.
    pub fn wrap<T>(&self, value: T) -> (r: XmlEscape<T>)
        ensures
            r.0 == value,
    {
        XmlEscape(value)
    }
}

/// A tag remembering one argument's static type, from which the escaping
/// strategy is selected with no runtime branch.
pub struct TagWrapper<E>(core::marker::PhantomData<E>);

impl<E> TagWrapper<E> {
    /// Make the tag for the type of the given argument.
    pub fn new(_value: &E) -> (r: Self) {
        TagWrapper(core::marker::PhantomData)
    }
}

/// Strategy of a tag whose argument type is safe: hand the value through.
impl<T: crate::escape::RawMarker> crate::escape::RawKind for TagWrapper<T> {
    fn wrap<'a, U: crate::escape::RawMarker>(&self, value: &'a U) -> (r: &'a U) {
        value
    }
}

/// Fallback strategy, one reference level out: tag the value for
/// escaping.
impl<T> crate::escape::EscapeKind for &TagWrapper<T> {
    fn wrap<'a, U>(&self, value: &'a U) -> (r: XmlEscape<&'a U>) {
        XmlEscape(value)
    }
}

} // verus!
