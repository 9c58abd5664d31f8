//! A flag that can be set once and never cleared.

use vstd::prelude::*;

verus! {

/// A `bool` that can be set to true only once.
#[derive(Debug, Clone, Copy, PartialEq, Eq)]
pub struct Fuse {
    burnt: bool,
}

impl View for Fuse {
    type V = bool;

    closed spec fn view(&self) -> bool {
        self.burnt
    }
}

impl Fuse {
    /// A fuse that is not burnt.
    pub fn new() -> (r: Fuse)
        ensures
            !r@,
    {
        Fuse { burnt: false }
    }

    /// Burns the fuse; burning it again changes nothing.
    pub fn burn(&mut self)
        ensures
            final(self)@,
    {
        self.burnt = true
    }
}

impl std::ops::Deref for Fuse {
    type Target = bool;

    fn deref(&self) -> (r: &bool)
        ensures
            *r == self@,
    {
        &self.burnt
    }
}

} // verus!
