# sim_ui

The core of a small retained-mode UI toolkit, written in Verus: colors,
identifiers, keyboard modifiers, text alignment, simple buttons, a named
registry of theme render objects, and a widget tree with its event
dispatcher. Verus verifies every function in `src/`; nearly all carry a
contract that states their result, the rest being the application's
callbacks of `WidgetEvents` and the `From` conversions, whose meaning the
spec impls beside them give.

## Layout

- `src/color.rs`, `src/color_defs.rs`: 8-bit colors, their packing into
  `u32`, and the material palette.
- `src/ids.rs`: widget, cache, image and device identifiers.
- `src/input.rs`: keyboard modifiers and mouse button states.
- `src/text_align.rs`, `src/style.rs`, `src/buttons.rs`: text alignment,
  drawing state of an area, push and toggle buttons.
- `src/theme.rs`: render objects registered under unique names.
- `src/state_flags.rs`, `src/widget_base.rs`: the control flags of a widget,
  the widget tree and its model (`WidgetModel`), search and edits by id.
- `src/dispatcher.rs`: the dispatcher. It owns the tree, walks it for each
  event, and asks the application, through the `WidgetEvents` trait, where
  the pointer is and what each widget does. Each `emit_*` function returns
  the calls it made, and its contract states that trace and the new tree
  as functions of the old tree and of the application's answers. An
  application that keeps a log of the calls it receives
  (`WidgetEvents::records_calls`, `WidgetEvents::received`) gets, by the
  same contracts, exactly that trace appended to its log.
- `src/dispatch_laws.rs`: properties over several calls (a request for any
  widget of the tree, however deep, served by the next tick or draw, press
  and release undoing each other, mouse moves reaching only widgets that
  hold buttons or track the mouse).
- `app/`: what Verus does not take: floating-point colors and geometry, the
  process-wide widget id counter, serde forms of the plain types, stores
  keyed by type (`Any`), widgets built on function-pointer tables, and the
  application side of dispatch (`Widgets`, which answers the hit test from
  `f32` rectangles).
- `tests/`: tests of the library.
