use sim_ui::style::RectAreaDraw;
use sim_ui::theme::{ButtonDefined, ThemeError, ThemeRenderObjects};
use std::rc::Rc;

#[test]
fn button_defined_names() {
    assert_eq!(ButtonDefined::Normal.into_str(), "normal");
    assert_eq!(ButtonDefined::Accent.into_str(), "accent");
}

#[test]
fn register_and_get() {
    let mut objs: ThemeRenderObjects<u32> = ThemeRenderObjects::new(3);
    assert!(objs.get("normal").is_none());
    assert_eq!(objs.register("normal", Rc::new(1)), Ok(()));
    assert_eq!(objs.register("accent", Rc::new(2)), Ok(()));
    assert_eq!(*objs.get("normal").unwrap(), 1);
    assert_eq!(*objs.get("accent").unwrap(), 2);
    assert_eq!(
        objs.register("normal", Rc::new(3)),
        Err(ThemeError::AlreadyRegistered("normal"))
    );
    assert_eq!(*objs.get("normal").unwrap(), 1);
}

#[test]
fn register_multi_stops_at_a_taken_name() {
    let mut objs: ThemeRenderObjects<u32> = ThemeRenderObjects::new(0);
    let items = vec![
        (ButtonDefined::Normal.into_str(), Rc::new(10)),
        (ButtonDefined::Accent.into_str(), Rc::new(20)),
    ];
    assert_eq!(objs.register_multi(items), Ok(()));
    let again = vec![("flat", Rc::new(30)), ("accent", Rc::new(40)), ("other", Rc::new(50))];
    assert_eq!(objs.register_multi(again), Err(ThemeError::AlreadyRegistered("accent")));
    assert_eq!(*objs.get("flat").unwrap(), 30);
    assert_eq!(*objs.get("accent").unwrap(), 20);
    assert!(objs.get("other").is_none());
}

#[test]
fn rect_area_draw_is_plain_data() {
    let d = RectAreaDraw { is_hover: true, is_down: false };
    assert_eq!(d, RectAreaDraw { is_hover: true, is_down: false });
}
