//! Widget toolkit core: colors, ids, input state, text alignment, buttons,
//! theme registries, and a widget tree with its event dispatcher and the
//! laws the dispatcher keeps over several events.

pub mod color;
pub mod color_defs;
pub mod ids;
pub mod input;
pub mod text_align;
pub mod buttons;
pub mod state_flags;
pub mod widget_base;
pub mod dispatcher;
pub mod theme;
pub mod dispatch_laws;
pub mod style;
