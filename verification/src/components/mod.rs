//! The component library: views, their persisted state, and the layout and
//! navigation logic behind them.

pub mod text;
pub mod tabs;
pub mod spinner;
pub mod rule;
pub mod status_bar;
pub mod spacer;
pub mod tab_select;
pub mod console;
pub mod window;
pub mod select;
pub mod scroll;
pub mod dialog_presets;
pub mod completion;
pub mod ascii_font;
pub mod markdown;
pub mod boxed;
pub mod constrained;
pub mod responsive;
pub mod focus_scope;
pub mod key_hints;
pub mod qr;
pub mod code_block;
pub mod grid;
