//! The widget variants: each file holds one widget kind.

pub mod button;
pub mod checkbox;
pub mod flex_box;
pub mod list_box;
pub mod slider;
pub mod text_input;

pub use button::Button;
pub use checkbox::Checkbox;
pub use flex_box::FlexBox;
pub use list_box::ListBox;
pub use slider::Slider;
pub use text_input::TextInput;
