//! A flex container: it owns an ordered list of child widgets and lays
//! them out along one axis.

use vstd::prelude::*;

use crate::control::Control;
use crate::style::Dimension;
use crate::style::FlexDirection;
use crate::style::Style;

verus! {

/// A flex container widget.
#[derive(Debug)]
pub struct FlexBox {
    pub children: Vec<Control>,
    pub flex_direction: FlexDirection,
    pub width: Option<usize>,
    pub height: Option<usize>,
}

impl FlexBox {
    /// The preferences this widget reports: the declared size, or the
    /// full parent extent, along its axis.
    pub open spec fn spec_style(self) -> Style {
        Style {
            width: match self.width {
                Some(w) => Dimension::Points(w),
                None => Dimension::Percent(100),
            },
            height: match self.height {
                Some(h) => Dimension::Points(h),
                None => Dimension::Percent(100),
            },
            min_width: Dimension::Undefined,
            min_height: Dimension::Undefined,
            flex_direction: self.flex_direction,
        }
    }

    /// Create a new, empty container laid out in a row.
    pub fn new() -> (f: FlexBox)
        ensures
            f.children@.len() == 0,
            f.flex_direction is Row,
            f.width is None,
            f.height is None,
    {
        FlexBox {
            children: Vec::new(),
            flex_direction: FlexDirection::Row,
            width: None,
            height: None,
        }
    }

    /// Lay the children out left to right.
    pub fn horizontal(&mut self)
        ensures
            final(self).flex_direction is Row,
            final(self).children == old(self).children,
            final(self).width == old(self).width,
            final(self).height == old(self).height,
    {
        self.flex_direction = FlexDirection::Row;
    }

    /// Lay the children out top to bottom.
    pub fn vertical(&mut self)
        ensures
            final(self).flex_direction is Column,
            final(self).children == old(self).children,
            final(self).width == old(self).width,
            final(self).height == old(self).height,
    {
        self.flex_direction = FlexDirection::Column;
    }

    /// Append a child widget.
    pub fn add_child(&mut self, child: Control)
        ensures
            final(self).children@ == old(self).children@.push(child),
            final(self).flex_direction == old(self).flex_direction,
            final(self).width == old(self).width,
            final(self).height == old(self).height,
    {
        self.children.push(child);
    }

    /// Declare a preferred size.
    pub fn set_size(&mut self, width: Option<usize>, height: Option<usize>)
        ensures
            final(self).width == width,
            final(self).height == height,
            final(self).children == old(self).children,
            final(self).flex_direction == old(self).flex_direction,
    {
        self.width = width;
        self.height = height;
    }

    /// The preferences handed to the layout solver.
    pub fn style(&self) -> (s: Style)
        ensures
            s == self.spec_style(),
    {
        Style {
            width: match self.width {
                Some(w) => Dimension::Points(w),
                None => Dimension::Percent(100),
            },
            height: match self.height {
                Some(h) => Dimension::Points(h),
                None => Dimension::Percent(100),
            },
            min_width: Dimension::Undefined,
            min_height: Dimension::Undefined,
            flex_direction: self.flex_direction,
        }
    }
}

} // verus!
