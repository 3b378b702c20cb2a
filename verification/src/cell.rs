//! The cell alphabet of Wireworld and the rule that advances a single cell.

use vstd::prelude::*;

verus! {

/// The state of one cell.
///
/// The variants are declared in the order of their byte encoding, see
/// [`Cell::byte`].
#[derive(Clone, Copy, Debug, PartialEq, Eq, Structural)]
pub enum Cell {
    Empty,
    ElectronHead,
    ElectronTail,
    Conductor,
}

impl Cell {
    /// The byte under which a cell is shown to a host: `Empty` is 0,
    /// `ElectronHead` 1, `ElectronTail` 2 and `Conductor` 3.
    pub open spec fn spec_byte(self) -> u8 {
        match self {
            Cell::Empty => 0,
            Cell::ElectronHead => 1,
            Cell::ElectronTail => 2,
            Cell::Conductor => 3,
        }
    }

    /// The successor of a cell that has `heads` electron heads among its
    /// neighbours: empty cells stay empty, a head decays to a tail, a tail to
    /// a conductor, and a conductor ignites exactly when one or two of its
    /// neighbours are heads.
    pub open spec fn spec_next(self, heads: nat) -> Cell {
        match self {
            Cell::Empty => Cell::Empty,
            Cell::ElectronHead => Cell::ElectronTail,
            Cell::ElectronTail => Cell::Conductor,
            Cell::Conductor => if 1 <= heads <= 2 {
                Cell::ElectronHead
            } else {
                Cell::Conductor
            },
        }
    }

    /// What an editor's toggle makes of a cell: it swaps `Empty` and
    /// `Conductor` and leaves electrons alone.
    pub open spec fn spec_toggled(self) -> Cell {
        match self {
            Cell::Empty => Cell::Conductor,
            Cell::Conductor => Cell::Empty,
            other => other,
        }
    }

    /// What injecting an electron makes of a cell: a `Conductor` becomes an
    /// `ElectronHead`, anything else is unchanged.
    pub open spec fn spec_ignited(self) -> Cell {
        match self {
            Cell::Conductor => Cell::ElectronHead,
            other => other,
        }
    }

    /// Whether the cell is an electron head.
    #[verifier::when_used_as_spec(spec_is_head)]
    pub fn is_head(self) -> (b: bool)
        ensures
            b == self.spec_is_head(),
    {
        match self {
            Cell::ElectronHead => true,
            _ => false,
        }
    }

    pub open spec fn spec_is_head(self) -> bool {
        self == Cell::ElectronHead
    }

    /// Returns the byte encoding of the cell.
    #[verifier::when_used_as_spec(spec_byte)]
    pub fn byte(self) -> (b: u8)
        ensures
            b == self.spec_byte(),
            b < 4,
    {
        match self {
            Cell::Empty => 0,
            Cell::ElectronHead => 1,
            Cell::ElectronTail => 2,
            Cell::Conductor => 3,
        }
    }

    /// Advances the cell by one generation, given the number of electron
    /// heads among its neighbours.
    pub fn next(self, heads: u8) -> (next: Cell)
        ensures
            next == self.spec_next(heads as nat),
    {
        match self {
            Cell::Empty => Cell::Empty,
            Cell::ElectronHead => Cell::ElectronTail,
            Cell::ElectronTail => Cell::Conductor,
            Cell::Conductor => if heads > 0 && heads <= 2 {
                Cell::ElectronHead
            } else {
                Cell::Conductor
            },
        }
    }
}

} // verus!
