//! Bookkeeping for property declarations: which cascade phases a parsed
//! declaration list touches. The declarations themselves are parsed and
//! applied outside this crate.

use vstd::prelude::*;

verus! {

/// The early cascade phase (properties others depend on, like font size).
#[derive(Clone, Copy, Debug, PartialEq, Eq, Structural)]
pub struct Early;

/// The late cascade phase (everything else).
#[derive(Clone, Copy, Debug, PartialEq, Eq, Structural)]
pub struct Late;

/// Which phases a set of declarations touches.
#[derive(Clone, Copy, Debug, PartialEq, Eq, Structural)]
pub struct Phases {
    pub any_early: bool,
    pub any_late: bool,
}

/// A cascade phase: it knows whether a `Phases` value involves it.
pub trait Phase: Copy {
    fn any(self, p: Phases) -> bool;
}

impl Phase for Early {
    fn any(self, p: Phases) -> (r: bool)
        ensures
            r == p.any_early,
    {
        p.any_early
    }
}

impl Phase for Late {
    fn any(self, p: Phases) -> (r: bool)
        ensures
            r == p.any_late,
    {
        p.any_late
    }
}

impl Default for Phases {
    fn default() -> (r: Phases)
        ensures
            r == (Phases { any_early: false, any_late: false }),
    {
        Phases { any_early: false, any_late: false }
    }
}

impl Phases {
    /// Whether any phase at all is touched.
    pub fn any(self) -> (r: bool)
        ensures
            r == (self.any_early || self.any_late),
    {
        self.any_early || self.any_late
    }

    /// Accumulate the phases of another declaration list.
    pub fn bitor_assign(&mut self, other: Phases)
        ensures
            final(self).any_early == (old(self).any_early || other.any_early),
            final(self).any_late == (old(self).any_late || other.any_late),
    {
        self.any_early = self.any_early || other.any_early;
        self.any_late = self.any_late || other.any_late;
    }
}

} // verus!
