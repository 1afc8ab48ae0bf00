use sim_ui::buttons::{PushButton, ToggleButton};

/// Whether the point is inside the rectangle at (x, y) of size w x h.
fn inside(rect: (f32, f32, f32, f32), px: f32, py: f32) -> bool {
    px >= rect.0 && px <= rect.0 + rect.2 && py >= rect.1 && py <= rect.1 + rect.3
}

#[test]
fn toggle_button() {
    let rect = (50.0, 50.0, 100.0, 100.0);
    {
        let mut b = ToggleButton::new();
        assert!(!b.on_mouse_move(inside(rect, 0.0, 0.0)));
        assert!(!b.on_mouse_button(true));
        assert!(!b.on_mouse_button(false));
        assert!(!b.is_toggle);
    }

    {
        let mut b = ToggleButton::new();
        assert!(!b.on_mouse_move(inside(rect, 0.0, 0.0)));
        assert!(!b.on_mouse_button(true));
        assert!(b.on_mouse_move(inside(rect, 75.0, 75.0)));
        assert!(!b.on_mouse_button(false));
        assert!(!b.is_toggle);
    }

    {
        let mut b = ToggleButton::new();
        assert!(b.on_mouse_move(inside(rect, 75.0, 75.0)));
        assert!(!b.on_mouse_button(true));
        assert!(!b.on_mouse_move(inside(rect, 0.0, 0.0)));
        assert!(!b.on_mouse_button(false));
        assert!(!b.is_toggle);
    }

    {
        let mut b = ToggleButton::new();
        assert!(b.on_mouse_move(inside(rect, 75.0, 75.0)));
        assert!(!b.on_mouse_button(true));
        assert!(b.on_mouse_button(false));
        assert!(b.is_toggle);

        assert!(b.on_mouse_move(inside(rect, 75.0, 75.0)));
        assert!(!b.on_mouse_button(true));
        assert!(b.on_mouse_button(false));
        assert!(!b.is_toggle);
    }
}

#[test]
fn push_button_clicks_on_release_over_it() {
    let mut b = PushButton::new();
    assert!(!b.is_hover && !b.is_down);
    assert!(b.on_mouse_move(true));
    assert!(!b.on_mouse_button(true));
    assert!(b.is_down);
    assert!(b.on_mouse_button(false));
    assert!(!b.is_down);

    // Released outside: no click.
    assert!(!b.on_mouse_button(true));
    assert!(!b.on_mouse_move(false));
    assert!(!b.on_mouse_button(false));

    // Pressed outside, released inside: no click.
    assert!(!b.on_mouse_button(true));
    assert!(b.on_mouse_move(true));
    assert!(!b.on_mouse_button(false));
}
