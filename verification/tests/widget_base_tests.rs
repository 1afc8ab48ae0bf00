use sim_ui::ids::WidgetId;
use sim_ui::state_flags::{CHILDREN_DELETE, CHILDREN_DRAW, IS_OVER, SELF_DELETE, SELF_DRAW, SELF_UPDATE};
use sim_ui::widget_base::{
    add_children, default_double_click_duration, default_tool_tip_duration, NodeEdit, Runtime,
    WidgetBase,
};
use std::time::Duration;

fn wid(v: usize) -> WidgetId {
    WidgetId::from_raw::<()>(v)
}

#[test]
fn new_widget_state() {
    let w = WidgetBase::new(wid(3));
    assert_eq!(w.id(), wid(3));
    assert!(w.is_visible());
    assert!(w.is_enabled());
    assert!(!w.is_transparent());
    assert!(!w.is_over());
    assert!(!w.has_mouse_tracking());
    assert_eq!(w.mouse_btn_num(), 0);
    assert!(w.children().is_empty());
    let (flags, id, btn, tracking) = w.data_for_dispatcher();
    assert!(flags.contains(SELF_DRAW) && flags.contains(SELF_UPDATE));
    assert_eq!((id, btn, tracking), (wid(3), 0, false));
}

#[test]
fn requests_on_the_widget_itself() {
    let mut w = WidgetBase::new(wid(1));
    assert!(!w.state_flags.contains(SELF_DELETE));
    assert!(w.request_delete(wid(1)));
    assert!(w.state_flags.contains(SELF_DELETE));
    assert!(w.request_draw(wid(1)));
    assert!(w.request_update(wid(1)));
    assert!(!w.request_delete(wid(2)));
}

#[test]
fn switches_report_changes() {
    let mut w = WidgetBase::new(wid(1));
    assert!(!w.set_visible(true));
    assert!(w.set_visible(false));
    assert!(!w.is_visible());
    assert!(!w.set_visible(false));
    assert!(w.set_enabled(false));
    assert!(!w.set_enabled(false));
    assert!(!w.is_enabled());
    w.set_transparent(true);
    assert!(w.is_transparent());
    w.set_over(true);
    assert!(w.is_over());
    w.set_mouse_tracking(true);
    assert!(w.has_mouse_tracking());
}

#[test]
fn pressed_buttons_do_not_go_below_zero() {
    let mut w = WidgetBase::new(wid(1));
    w.add_mouse_btn_num(2);
    assert_eq!(w.mouse_btn_num(), 2);
    w.add_mouse_btn_num(-5);
    assert_eq!(w.mouse_btn_num(), 0);
}

#[test]
fn durations_fall_back_to_runtime_then_default() {
    let mut w = WidgetBase::new(wid(1));
    assert_eq!(default_tool_tip_duration(), Duration::from_secs(2));
    assert_eq!(default_double_click_duration(), Duration::from_millis(200));
    assert_eq!(w.tool_type_time(), Duration::from_secs(2));
    assert_eq!(w.double_click_time(), Duration::from_millis(200));
    let mut rt = Runtime::new();
    rt.set_tool_type_time(Duration::from_secs(5));
    rt.set_double_click_time(Duration::from_millis(50));
    assert_eq!(rt.tool_type_time(), Duration::from_secs(5));
    w.runtime = Some(rt);
    assert_eq!(w.tool_type_time(), Duration::from_secs(5));
    assert_eq!(w.double_click_time(), Duration::from_millis(50));
    w.set_tool_type_time(Some(Duration::from_secs(1)));
    w.set_double_click_time(Some(Duration::from_millis(10)));
    assert_eq!(w.tool_type_time(), Duration::from_secs(1));
    assert_eq!(w.double_click_time(), Duration::from_millis(10));
    w.set_tool_type_time(None);
    assert_eq!(w.tool_type_time(), Duration::from_secs(5));
}

#[test]
fn children_keep_their_order() {
    let mut root = WidgetBase::new(wid(1));
    root.add_child(WidgetBase::new(wid(2)));
    add_children(&mut root, vec![WidgetBase::new(wid(3)), WidgetBase::new(wid(4))]);
    let ids: Vec<WidgetId> = root.children().iter().map(|c| c.id()).collect();
    assert_eq!(ids, vec![wid(2), wid(3), wid(4)]);
}

#[test]
fn lookup_and_edit_by_id() {
    let mut root = WidgetBase::new(wid(1));
    let mut two = WidgetBase::new(wid(2));
    two.add_child(WidgetBase::new(wid(4)));
    root.add_child(two);
    assert!(root.lookup(wid(9)).is_none());
    let (flags, btn) = root.lookup(wid(4)).unwrap();
    assert!(!flags.contains(IS_OVER));
    assert_eq!(btn, 0);
    assert!(root.edit_of(wid(4), NodeEdit::SetFlag(IS_OVER, true)));
    assert!(root.edit_of(wid(4), NodeEdit::AddMouseBtn(3)));
    let (flags, btn) = root.lookup(wid(4)).unwrap();
    assert!(flags.contains(IS_OVER));
    assert_eq!(btn, 3);
    assert!(!root.edit_of(wid(9), NodeEdit::AddMouseBtn(1)));
}

#[test]
fn request_in_subtree_raises_the_parent_flag() {
    let mut root = WidgetBase::new(wid(1));
    let mut two = WidgetBase::new(wid(2));
    let mut four = WidgetBase::new(wid(4));
    four.state_flags.remove(SELF_DRAW);
    two.state_flags.remove(CHILDREN_DRAW);
    two.add_child(four);
    root.add_child(two);
    root.state_flags.remove(CHILDREN_DRAW);
    assert!(root.request_draw(wid(4)));
    assert!(root.state_flags.contains(CHILDREN_DRAW));
    let (flags, _) = root.lookup(wid(2)).unwrap();
    assert!(flags.contains(CHILDREN_DRAW));
    let (flags, _) = root.lookup(wid(4)).unwrap();
    assert!(flags.contains(SELF_DRAW));
    assert!(!root.request_update(wid(5)));
    assert!(root.request_delete(wid(4)));
    assert!(root.state_flags.contains(CHILDREN_DELETE));
    let (flags, _) = root.lookup(wid(2)).unwrap();
    assert!(flags.contains(CHILDREN_DELETE) && !flags.contains(SELF_DELETE));
}
