//! The size and flex preferences a widget hands to the layout solver, and
//! the preference tree the solver is fed with.  The solver itself is an
//! external collaborator; these values are passed through to it opaquely.

use vstd::prelude::*;

verus! {

/// One sizing preference.  `Points` is a count of character cells,
/// `Percent` a share of the parent in whole percent.
#[derive(Clone, Copy, Debug)]
pub enum Dimension {
    Undefined,
    Auto,
    Points(usize),
    Percent(u8),
}

/// The main axis of a container.
#[derive(Clone, Copy, Debug)]
pub enum FlexDirection {
    Row,
    Column,
}

/// The layout preferences of one widget.
#[derive(Clone, Copy, Debug)]
pub struct Style {
    pub width: Dimension,
    pub height: Dimension,
    pub min_width: Dimension,
    pub min_height: Dimension,
    pub flex_direction: FlexDirection,
}

impl Style {
    /// The neutral preference: everything left to the solver.
    pub open spec fn spec_default() -> Style {
        Style {
            width: Dimension::Undefined,
            height: Dimension::Undefined,
            min_width: Dimension::Undefined,
            min_height: Dimension::Undefined,
            flex_direction: FlexDirection::Row,
        }
    }

    /// The neutral preference value.
    pub fn base() -> (s: Style)
        ensures
            s == Style::spec_default(),
    {
        Style {
            width: Dimension::Undefined,
            height: Dimension::Undefined,
            min_width: Dimension::Undefined,
            min_height: Dimension::Undefined,
            flex_direction: FlexDirection::Row,
        }
    }
}

/// The preference tree handed to the layout solver: one node per widget,
/// children in widget order.
#[derive(Debug)]
pub struct StyleNode {
    pub style: Style,
    pub children: Vec<StyleNode>,
}

/// `a` saturated-plus `b`: the sum, capped at the machine limit.
pub open spec fn sat_add_spec(a: nat, b: nat) -> nat {
    if a + b > usize::MAX {
        usize::MAX as nat
    } else {
        a + b
    }
}

/// Add two cell counts, capping at the machine limit.
pub fn sat_add(a: usize, b: usize) -> (r: usize)
    ensures
        r as nat == sat_add_spec(a as nat, b as nat),
{
    if a <= usize::MAX - b {
        a + b
    } else {
        usize::MAX
    }
}

} // verus!
