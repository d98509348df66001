//! The indicator characters the widgets draw with; the box-drawing lines
//! and corners come from the line canvas.

use vstd::prelude::*;

verus! {

pub const BOX_UNCHECKED: char = '\u{2610}';

pub const BOX_CHECKED: char = '\u{2611}';

pub const RADIO_UNCHECKED: char = '\u{25cb}';

pub const RADIO_CHECKED: char = '\u{25c9}';

pub const MIDDLE_BLOCK: char = '\u{25a0}';

} // verus!
