use sim_ui::dispatcher::{has_button_room, Call, Dispatcher, LayoutEventCtx, LifecycleState, WidgetEvents};
use sim_ui::ids::WidgetId;
use sim_ui::input::MouseState;
use sim_ui::widget_base::{Runtime, WidgetBase};
use std::collections::HashMap;
use std::time::Duration;

/// Rectangles of the widgets, the pointer position, what the widgets
/// answer, and what they were told.
struct TestApp {
    rects: HashMap<WidgetId, (f32, f32, f32, f32)>,
    x: f32,
    y: f32,
    accept: bool,
    refuse: Vec<WidgetId>,
    mouse_enter: HashMap<WidgetId, usize>,
    mouse_leave: HashMap<WidgetId, usize>,
}

impl TestApp {
    fn new() -> TestApp {
        TestApp {
            rects: HashMap::new(),
            x: 0.0,
            y: 0.0,
            accept: true,
            refuse: Vec::new(),
            mouse_enter: HashMap::new(),
            mouse_leave: HashMap::new(),
        }
    }

    fn rect(&mut self, id: WidgetId, x: f32, y: f32, w: f32, h: f32) {
        self.rects.insert(id, (x, y, w, h));
    }

    fn at(&mut self, x: f32, y: f32) {
        self.x = x;
        self.y = y;
    }

    fn enter(&self, id: WidgetId) -> usize {
        *self.mouse_enter.get(&id).unwrap_or(&0)
    }

    fn leave(&self, id: WidgetId) -> usize {
        *self.mouse_leave.get(&id).unwrap_or(&0)
    }

    fn answer(&self, id: WidgetId) -> bool {
        self.accept && !self.refuse.contains(&id)
    }
}

impl WidgetEvents for TestApp {
    fn is_inside(&mut self, id: WidgetId) -> bool {
        match self.rects.get(&id) {
            Some(&(x, y, w, h)) => self.x >= x && self.x <= x + w && self.y >= y && self.y <= y + h,
            None => true,
        }
    }

    fn on_lifecycle(&mut self, _id: WidgetId, _state: LifecycleState) {}

    fn on_layout(&mut self, _id: WidgetId, _event: &LayoutEventCtx) {}

    fn on_update(&mut self, _id: WidgetId) {}

    fn on_draw(&mut self, _id: WidgetId) {}

    fn on_mouse_cross(&mut self, id: WidgetId, enter: bool) {
        if enter {
            *self.mouse_enter.entry(id).or_insert(0) += 1;
        } else {
            *self.mouse_leave.entry(id).or_insert(0) += 1;
        }
    }

    fn on_mouse_move(&mut self, id: WidgetId) -> bool {
        self.answer(id)
    }

    fn on_mouse_button(&mut self, id: WidgetId) -> bool {
        self.answer(id)
    }

    fn on_mouse_wheel(&mut self, id: WidgetId) -> bool {
        self.answer(id)
    }

    fn on_keyboard(&mut self, id: WidgetId) -> bool {
        self.answer(id)
    }
}

fn wid(v: usize) -> WidgetId {
    WidgetId::from_raw::<()>(v)
}

/// Root 1 with children 2 and 3; 2 has the child 4.
fn tree() -> WidgetBase {
    let mut root = WidgetBase::new(wid(1));
    let mut two = WidgetBase::new(wid(2));
    two.add_child(WidgetBase::new(wid(4)));
    root.add_child(two);
    root.add_child(WidgetBase::new(wid(3)));
    root
}

const DESTROY: LifecycleState = LifecycleState::Destroy { unexpected: false };

///
///      +---------------------+
///      |     WIDGET 1        |
///      |                     |
///      |        +------------+
///  1   |     2  |  WIDGET 2  |
///  X------>  X----->         |
///      |        |            |
///  <------X  <-----X         |
///      |  4     |  3         |
///      |        +------------+
///      |                     |
///      +---------------------+
///
/// 1 - move from outside into the widget(1).
///     a) widget(1) enter event.
/// 2 - move from widget(1) into the widget(2).
///     a) widget(1) leave event.
///     b) widget(2) enter event.
/// 3 - move from widget(2) back to the widget(1).
///     a) widget(2) leave event.
///     b) widget(1) enter event.
/// 4 - move from widget(1) back to outside.
///     a) widget(1) leave event.
#[test]
fn test_mouse_move() {
    let root_id = wid(1);
    let child_id = wid(2);
    let root = WidgetBase::new(root_id);
    let child = WidgetBase::new(child_id);
    let mut app = TestApp::new();
    app.rect(root_id, 0.0, 0.0, 200.0, 200.0);
    app.rect(child_id, 50.0, 50.0, 100.0, 100.0);

    let mut dispatcher = Dispatcher::new(Some(root), Runtime::new());
    dispatcher.widget_mut().add_child(child);
    //----------------------
    app.at(-10.0, 100.0);
    dispatcher.emit_mouse_move(&mut app);
    assert_eq!(app.enter(root_id), 0);
    assert_eq!(app.leave(root_id), 0);
    assert_eq!(app.enter(child_id), 0);
    assert_eq!(app.leave(child_id), 0);
    //----------------------
    app.at(25.0, 100.0);
    dispatcher.emit_mouse_move(&mut app);
    assert_eq!(app.enter(root_id), 1);
    assert_eq!(app.leave(root_id), 0);
    assert_eq!(app.enter(child_id), 0);
    assert_eq!(app.leave(child_id), 0);
    //----------------------
    app.at(75.0, 100.0);
    dispatcher.emit_mouse_move(&mut app);
    assert_eq!(app.enter(root_id), 1);
    assert_eq!(app.leave(root_id), 1);
    assert_eq!(app.enter(child_id), 1);
    assert_eq!(app.leave(child_id), 0);
    //----------------------
    app.at(25.0, 100.0);
    dispatcher.emit_mouse_move(&mut app);
    assert_eq!(app.enter(root_id), 2);
    assert_eq!(app.leave(root_id), 1);
    assert_eq!(app.enter(child_id), 1);
    assert_eq!(app.leave(child_id), 1);
    //----------------------
    app.at(-10.0, 100.0);
    dispatcher.emit_mouse_move(&mut app);
    assert_eq!(app.enter(root_id), 2);
    assert_eq!(app.leave(root_id), 2);
    assert_eq!(app.enter(child_id), 1);
    assert_eq!(app.leave(child_id), 1);
    //----------------------
}

#[test]
fn mouse_move_marks_the_widget_under_the_pointer() {
    let mut root = WidgetBase::new(wid(1));
    root.add_child(WidgetBase::new(wid(2)));
    let mut app = TestApp::new();
    app.rect(wid(1), 0.0, 0.0, 200.0, 200.0);
    app.rect(wid(2), 50.0, 50.0, 100.0, 100.0);
    let mut d = Dispatcher::new(Some(root), Runtime::new());

    app.at(75.0, 75.0);
    let (accepted, calls) = d.emit_mouse_move(&mut app);
    assert!(accepted);
    assert_eq!(
        calls,
        vec![Call::Hit(wid(1), true), Call::Hit(wid(2), true), Call::MouseCross(wid(2), true)]
    );
    assert!(d.widget().children()[0].is_over());
    assert!(!d.widget().is_over());

    // Staying inside a widget that does not track the mouse: the move is
    // routed again and the widget, already under the pointer, is left alone.
    app.at(80.0, 80.0);
    let (accepted, calls) = d.emit_mouse_move(&mut app);
    assert!(accepted);
    assert_eq!(
        calls,
        vec![Call::Hit(wid(2), true), Call::Hit(wid(1), true), Call::Hit(wid(2), true)]
    );
}

#[test]
fn mouse_move_goes_to_a_tracking_widget() {
    let mut root = WidgetBase::new(wid(1));
    let mut child = WidgetBase::new(wid(2));
    child.set_mouse_tracking(true);
    root.add_child(child);
    let mut app = TestApp::new();
    app.rect(wid(1), 0.0, 0.0, 200.0, 200.0);
    app.rect(wid(2), 50.0, 50.0, 100.0, 100.0);
    let mut d = Dispatcher::new(Some(root), Runtime::new());

    app.at(75.0, 75.0);
    let (_, calls) = d.emit_mouse_move(&mut app);
    assert_eq!(
        calls,
        vec![
            Call::Hit(wid(1), true),
            Call::Hit(wid(2), true),
            Call::MouseCross(wid(2), true),
            Call::MouseMove(wid(2), true),
        ]
    );
    app.at(76.0, 75.0);
    let (accepted, calls) = d.emit_mouse_move(&mut app);
    assert!(accepted);
    assert_eq!(calls, vec![Call::Hit(wid(2), true), Call::MouseMove(wid(2), true)]);
}

#[test]
fn destroy_tells_children_before_parents_once() {
    let mut app = TestApp::new();
    let mut d = Dispatcher::new(Some(tree()), Runtime::new());
    let calls = d.destroy(&mut app);
    assert_eq!(
        calls,
        vec![
            Call::Lifecycle(wid(4), DESTROY),
            Call::Lifecycle(wid(2), DESTROY),
            Call::Lifecycle(wid(3), DESTROY),
            Call::Lifecycle(wid(1), DESTROY),
        ]
    );
    assert!(d.destroy(&mut app).is_empty());
}

#[test]
fn reinit_destroys_the_old_tree() {
    let mut app = TestApp::new();
    let mut d = Dispatcher::new(Some(tree()), Runtime::new());
    let calls = d.reinit(WidgetBase::new(wid(9)), &mut app);
    assert_eq!(calls.len(), 4);
    assert_eq!(calls[3], Call::Lifecycle(wid(1), DESTROY));
    assert_eq!(d.widget().id(), wid(9));
    // The dispatcher counts as destroyed: a second reinit tells nobody.
    let calls = d.reinit(WidgetBase::new(wid(10)), &mut app);
    assert!(calls.is_empty());
    assert_eq!(d.widget().id(), wid(10));
}

#[test]
fn layout_goes_to_parents_before_children() {
    let mut app = TestApp::new();
    let mut d = Dispatcher::new(Some(tree()), Runtime::new());
    let calls = d.emit_layout(&LayoutEventCtx {}, &mut app);
    assert_eq!(
        calls,
        vec![Call::Layout(wid(1)), Call::Layout(wid(2)), Call::Layout(wid(4)), Call::Layout(wid(3))]
    );
}

#[test]
fn tick_updates_requested_widgets_once() {
    let mut app = TestApp::new();
    let mut d = Dispatcher::new(Some(tree()), Runtime::new());
    // New widgets ask for an update.
    let calls = d.emit_tick(&mut app);
    assert_eq!(
        calls,
        vec![Call::Update(wid(1)), Call::Update(wid(2)), Call::Update(wid(4)), Call::Update(wid(3))]
    );
    assert!(d.emit_tick(&mut app).is_empty());
    assert!(d.request_update(wid(3)));
    assert_eq!(d.emit_tick(&mut app), vec![Call::Update(wid(3))]);
    assert!(d.emit_tick(&mut app).is_empty());
    assert!(!d.request_update(wid(42)));
    assert!(d.emit_tick(&mut app).is_empty());
}

#[test]
fn tick_deletes_requested_widgets() {
    let mut app = TestApp::new();
    let mut d = Dispatcher::new(Some(tree()), Runtime::new());
    d.emit_tick(&mut app);
    assert!(d.request_delete(wid(2)));
    let calls = d.emit_tick(&mut app);
    assert_eq!(calls, vec![Call::Lifecycle(wid(4), DESTROY), Call::Lifecycle(wid(2), DESTROY)]);
    let kids = d.widget().children();
    assert_eq!(kids.len(), 1);
    assert_eq!(kids[0].id(), wid(3));
    assert!(!d.request_delete(wid(4)));
}

#[test]
fn draw_requested_and_forced() {
    let mut app = TestApp::new();
    let mut root = tree();
    let mut hidden = WidgetBase::new(wid(5));
    assert!(hidden.set_visible(false));
    root.add_child(hidden);
    let mut d = Dispatcher::new(Some(root), Runtime::new());
    let calls = d.emit_draw(&mut app, false);
    assert_eq!(
        calls,
        vec![Call::Draw(wid(1)), Call::Draw(wid(2)), Call::Draw(wid(4)), Call::Draw(wid(3))]
    );
    assert!(d.emit_draw(&mut app, false).is_empty());
    assert!(d.request_draw(wid(3)));
    assert_eq!(d.emit_draw(&mut app, false), vec![Call::Draw(wid(3))]);
    let calls = d.emit_draw(&mut app, true);
    assert_eq!(
        calls,
        vec![Call::Draw(wid(1)), Call::Draw(wid(2)), Call::Draw(wid(4)), Call::Draw(wid(3))]
    );
}

#[test]
fn mouse_button_press_and_release() {
    let mut app = TestApp::new();
    app.rect(wid(1), 0.0, 0.0, 200.0, 200.0);
    app.rect(wid(2), 0.0, 0.0, 100.0, 100.0);
    app.rect(wid(4), 150.0, 150.0, 10.0, 10.0);
    app.rect(wid(3), 100.0, 100.0, 100.0, 100.0);
    let mut d = Dispatcher::new(Some(tree()), Runtime::new());

    app.at(10.0, 10.0);
    let (accepted, calls) = d.emit_mouse_button(&mut app, MouseState::Pressed);
    assert!(accepted);
    assert_eq!(
        calls,
        vec![
            Call::Hit(wid(1), true),
            Call::Hit(wid(2), true),
            Call::Hit(wid(4), false),
            Call::MouseButton(wid(2), true),
        ]
    );
    assert_eq!(d.widget().children()[0].mouse_btn_num(), 1);
    assert_eq!(d.mouse_button_holder(), Some(wid(2)));

    // The widget holding the buttons gets the next press and the release,
    // wherever the pointer is.
    app.at(190.0, 190.0);
    let (accepted, calls) = d.emit_mouse_button(&mut app, MouseState::Pressed);
    assert!(accepted);
    assert_eq!(calls, vec![Call::Hit(wid(2), false)]);
    assert_eq!(d.widget().children()[0].mouse_btn_num(), 1);

    let (accepted, calls) = d.emit_mouse_button(&mut app, MouseState::Released);
    assert!(accepted);
    assert_eq!(calls, vec![Call::Hit(wid(2), false), Call::MouseButton(wid(2), true)]);
    assert_eq!(d.widget().children()[0].mouse_btn_num(), 0);
    assert_eq!(d.mouse_button_holder(), None);

    // Nobody holds the buttons now: the next press is routed again.
    let (_, calls) = d.emit_mouse_button(&mut app, MouseState::Pressed);
    assert_eq!(
        calls,
        vec![
            Call::Hit(wid(1), true),
            Call::Hit(wid(2), false),
            Call::Hit(wid(3), true),
            Call::MouseButton(wid(3), true),
        ]
    );
}

#[test]
fn refused_button_press_goes_to_the_parent() {
    let mut app = TestApp::new();
    app.refuse.push(wid(4));
    let mut d = Dispatcher::new(Some(tree()), Runtime::new());
    let (accepted, calls) = d.emit_mouse_button(&mut app, MouseState::Pressed);
    assert!(accepted);
    assert_eq!(
        calls,
        vec![
            Call::Hit(wid(1), true),
            Call::Hit(wid(2), true),
            Call::Hit(wid(4), true),
            Call::MouseButton(wid(4), false),
            Call::MouseButton(wid(2), true),
        ]
    );
    // Both widgets counted the press; the outer one holds the buttons.
    assert_eq!(d.widget().children()[0].mouse_btn_num(), 1);
    assert_eq!(d.widget().children()[0].children()[0].mouse_btn_num(), 1);
    let (_, calls) = d.emit_mouse_button(&mut app, MouseState::Released);
    assert_eq!(calls, vec![Call::Hit(wid(2), true), Call::MouseButton(wid(2), true)]);
}

#[test]
fn keyboard_goes_to_the_first_leaf_that_takes_it() {
    let mut app = TestApp::new();
    let mut d = Dispatcher::new(Some(tree()), Runtime::new());
    let (accepted, calls) = d.emit_keyboard(&mut app);
    assert!(accepted);
    assert_eq!(calls, vec![Call::Keyboard(wid(4), true)]);

    app.refuse = vec![wid(4), wid(2)];
    let (accepted, calls) = d.emit_keyboard(&mut app);
    assert!(accepted);
    assert_eq!(
        calls,
        vec![Call::Keyboard(wid(4), false), Call::Keyboard(wid(2), false), Call::Keyboard(wid(3), true)]
    );

    app.accept = false;
    let (accepted, calls) = d.emit_keyboard(&mut app);
    assert!(!accepted);
    assert_eq!(calls.len(), 4);
    assert_eq!(calls[3], Call::Keyboard(wid(1), false));
}

#[test]
fn wheel_skips_disabled_widgets() {
    let mut app = TestApp::new();
    let mut root = WidgetBase::new(wid(1));
    let mut off = WidgetBase::new(wid(2));
    assert!(off.set_enabled(false));
    root.add_child(off);
    root.add_child(WidgetBase::new(wid(3)));
    let mut d = Dispatcher::new(Some(root), Runtime::new());
    let (accepted, calls) = d.emit_mouse_wheel(&mut app);
    assert!(accepted);
    assert_eq!(
        calls,
        vec![Call::Hit(wid(1), true), Call::Hit(wid(3), true), Call::MouseWheel(wid(3), true)]
    );
}

#[test]
fn runtime_reaches_every_widget() {
    let mut d = Dispatcher::new(Some(tree()), Runtime::new());
    assert_eq!(d.tool_type_duration(), Duration::from_secs(2));
    assert_eq!(d.double_click_duration(), Duration::from_millis(200));
    let grandchild = &d.widget().children()[0].children()[0];
    assert_eq!(grandchild.tool_type_time(), Duration::from_secs(2));

    d.set_tool_type_duration(Duration::from_millis(750));
    d.set_double_click_duration(Duration::from_millis(300));
    assert_eq!(d.tool_type_duration(), Duration::from_millis(750));
    let grandchild = &d.widget().children()[0].children()[0];
    assert_eq!(grandchild.tool_type_time(), Duration::from_millis(750));
    assert_eq!(grandchild.double_click_time(), Duration::from_millis(300));
    assert_eq!(d.widget().children()[1].double_click_time(), Duration::from_millis(300));
}

/// Root 1, its child 2 and grandchild 4 (and the child 3 of the root).
#[test]
fn tick_deletes_a_requested_grandchild() {
    let mut app = TestApp::new();
    let mut d = Dispatcher::new(Some(tree()), Runtime::new());
    d.emit_tick(&mut app);
    assert!(d.emit_tick(&mut app).is_empty());
    assert!(d.request_delete(wid(4)));
    let calls = d.emit_tick(&mut app);
    assert_eq!(calls, vec![Call::Lifecycle(wid(4), DESTROY)]);
    assert!(d.widget().children()[0].children().is_empty());
    assert!(d.widget().lookup(wid(4)).is_none());
    assert!(d.emit_tick(&mut app).is_empty());
}

#[test]
fn draw_reaches_a_requested_grandchild() {
    let mut app = TestApp::new();
    let mut d = Dispatcher::new(Some(tree()), Runtime::new());
    d.emit_draw(&mut app, false);
    assert!(d.emit_draw(&mut app, false).is_empty());
    assert!(d.request_draw(wid(4)));
    assert_eq!(d.emit_draw(&mut app, false), vec![Call::Draw(wid(4))]);
    assert!(d.request_update(wid(4)));
    d.emit_tick(&mut app);
    assert!(d.request_update(wid(4)));
    assert_eq!(d.emit_tick(&mut app), vec![Call::Update(wid(4))]);
}

#[test]
fn dispatcher_without_a_root_makes_an_empty_one() {
    let mut app = TestApp::new();
    let mut d = Dispatcher::new(None, Runtime::new());
    assert!(!d.widget().id().is_valid());
    assert!(d.widget().children().is_empty());
    assert_eq!(d.widget().tool_type_time(), Duration::from_secs(2));
    assert_eq!(d.emit_tick(&mut app), vec![Call::Update(WidgetId::invalid())]);
    assert_eq!(d.destroy(&mut app), vec![Call::Lifecycle(WidgetId::invalid(), DESTROY)]);
}

#[test]
fn button_room_checks() {
    let mut root = tree();
    assert!(has_button_room(&root));
    root.add_mouse_btn_num(127);
    assert!(!has_button_room(&root));
    assert!(root.set_enabled(false));
    assert!(has_button_room(&root));

    let mut app = TestApp::new();
    let mut d = Dispatcher::new(Some(tree()), Runtime::new());
    assert!(d.holder_has_room());
    d.emit_mouse_button(&mut app, MouseState::Pressed);
    assert_eq!(d.mouse_button_holder(), Some(wid(4)));
    assert!(d.holder_has_room());
}
