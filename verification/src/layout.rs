//! The layout surface that components build on: a provider receives a
//! `LayoutInfo` and places static components and expectations on it.
use vstd::prelude::*;

verus! {

/// Placement information handed to a component while the tree is built.
pub struct LayoutInfo {}

impl LayoutInfo {
    /// Places a static component: one with no state of its own to follow,
    /// such as a coloured rectangle.
    pub fn put(&mut self)
        ensures
            *final(self) == *old(self),
    {
    }

    /// Places an expectation: a small program that communicates with the
    /// program that placed it.
    pub fn expect(&mut self)
        ensures
            *final(self) == *old(self),
    {
    }
}

/// The root of an application: the main provider builds the layout.
pub trait LayoutProvider {
    fn build(&mut self, layout: &mut LayoutInfo);
}

/// A component with state of its own: it is given an initial state and then
/// builds its part of the layout, communicating with the component that
/// placed it.
pub trait Expectation<Message>: Sized {
    fn init_state() -> Self;

    fn build(&mut self, layout: &mut LayoutInfo);
}

} // verus!
