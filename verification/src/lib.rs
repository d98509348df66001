//! A terminal UI widget toolkit: a tree of widgets is laid out into
//! rectangles by an outside flexbox solver, drawn into a grid of styled
//! character cells, and the grid is serialized to ANSI escape sequences.
//! Input events are routed to the widget under the pointer or to the
//! focused widget; a preorder index gives every widget its per-frame
//! identity.

pub mod ansi;
pub mod buffer;
pub mod canvas;
pub mod cmd;
pub mod control;
pub mod event;
pub mod input_buffer;
pub mod layout;
pub mod renderer;
pub mod style;
pub mod symbol;
pub mod widget;

pub use buffer::Buffer;
pub use buffer::Cell;
pub use cmd::Cmd;
pub use control::count_nodes;
pub use control::find_widget;
pub use control::process_event_at;
pub use control::radio::Radio;
pub use control::set_focused_node;
pub use control::style_tree;
pub use control::Control;
pub use event::Event;
pub use event::Msg;
pub use input_buffer::InputBuffer;
pub use layout::hit_all;
pub use layout::node_index_at;
pub use layout::rect_at;
pub use layout::LayoutTree;
pub use layout::Rect;
pub use renderer::Renderer;
pub use renderer::RunState;
pub use renderer::StepOutcome;
pub use style::StyleNode;
pub use widget::Button;
pub use widget::Checkbox;
pub use widget::FlexBox;
pub use widget::ListBox;
pub use widget::Slider;
pub use widget::TextInput;
